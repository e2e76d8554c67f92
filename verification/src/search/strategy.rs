//! What all candidate generators share.
use vstd::prelude::*;

use crate::instruction::{self, bytes_lt, InstructionBytes, MAX_INSN_LENGTH, RAW_REPORT_INSN_BYTES};

verus! {

broadcast use InstructionBytes::lemma_shape;

#[derive(Clone, Copy, Debug, PartialEq, Eq, Structural)]
pub enum SearchMode {
    Brute,
    Random,
    Tunnel,
    Driven,
}

/// The candidates from `start` (inclusive) to `end` (exclusive), in the
/// lexicographic order of the 16 raw bytes.
#[derive(Clone, Copy, Debug, PartialEq, Eq)]
pub struct SearchRange {
    pub start: InstructionBytes,
    pub end: InstructionBytes,
}

impl Default for SearchRange {
    /// From nothing specified (all zeros) to fifteen specified `0xff` bytes.
    fn default() -> (r: Self)
        ensures
            r.start.spec_bytes() == Seq::new(16, |i: int| 0u8),
            r.start.spec_len() == 0,
            r.end.spec_bytes() == Seq::new(16, |i: int| 0xffu8),
            r.end.spec_len() == 15,
    {
        let empty: [u8; 0] = [];
        let start = InstructionBytes::from_slice(empty.as_slice());
        assert(start.spec_bytes() =~= Seq::new(16, |i: int| 0u8));
        let end = InstructionBytes::new([0xffu8; RAW_REPORT_INSN_BYTES], MAX_INSN_LENGTH);
        assert(end.spec_bytes() =~= Seq::new(16, |i: int| 0xffu8));
        Self { start, end }
    }
}

/// What executing a candidate showed, handed back to the strategy.
#[derive(Clone, Copy, Debug, PartialEq, Eq, Structural)]
pub struct StrategyFeedback {
    pub observed_length: u32,
    pub signum: u32,
    pub disasm_length: u32,
    pub disasm_known: bool,
}

impl Default for StrategyFeedback {
    fn default() -> (r: Self)
        ensures
            r.observed_length == 0,
            r.signum == 0,
            r.disasm_length == 0,
            !r.disasm_known,
    {
        StrategyFeedback { observed_length: 0, signum: 0, disasm_length: 0, disasm_known: false }
    }
}

impl StrategyFeedback {
    pub open spec fn spec_known_length_match(self) -> bool {
        self.disasm_known && self.disasm_length == self.observed_length
    }

    /// Unknown to the disassembler and rejected by the CPU with SIGILL.
    pub open spec fn spec_unknown_invalid(self) -> bool {
        !self.disasm_known && self.signum == 4
    }

    /// The disassembler knows the candidate and agrees on its length.
    pub fn is_known_length_match(self) -> (r: bool)
        ensures
            r == self.spec_known_length_match(),
    {
        self.disasm_known && self.disasm_length == self.observed_length
    }

    /// The disassembler does not know the candidate and the CPU raised SIGILL.
    pub fn is_unknown_invalid(self) -> (r: bool)
        ensures
            r == self.spec_unknown_invalid(),
    {
        !self.disasm_known && self.signum == 4
    }
}

/// A generator of candidate instructions.
pub trait SearchStrategy {
    /// What the generator keeps true between calls.
    spec fn strategy_inv(&self) -> bool;

    fn mode(&self) -> SearchMode;

    fn next_candidate(&mut self) -> (r: Option<InstructionBytes>)
        requires
            old(self).strategy_inv(),
        ensures
            final(self).strategy_inv(),
    ;

    fn observe(&mut self, feedback: StrategyFeedback)
        requires
            old(self).strategy_inv(),
        ensures
            final(self).strategy_inv(),
    {
    }
}

/// Whether `left`'s raw bytes are lexicographically before `right`'s.
pub fn instruction_lt(left: &InstructionBytes, right: &InstructionBytes) -> (r: bool)
    ensures
        r == instruction::lex_lt(left.spec_bytes(), right.spec_bytes()),
{
    bytes_lt(left.bytes().as_slice(), right.bytes().as_slice())
}

} // verus!
