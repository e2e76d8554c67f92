//! The record of one executed (or skipped) candidate.
use vstd::prelude::*;

use crate::instruction::{self, format_full_hex, InstructionBytes};

verus! {

broadcast use InstructionBytes::lemma_shape;

/// What the disassembler made of a candidate.
#[derive(Clone, Copy, Debug, PartialEq, Eq, Structural)]
pub struct DisasmResult {
    pub length: u32,
    pub known: bool,
}

impl Default for DisasmResult {
    fn default() -> (r: Self)
        ensures
            r.length == 0,
            !r.known,
    {
        DisasmResult { length: 0, known: false }
    }
}

/// One candidate with its disassembly and what executing it produced.
#[derive(Clone, Copy, Debug, PartialEq, Eq)]
pub struct ExecutionResult {
    pub disasm: DisasmResult,
    pub instruction: InstructionBytes,
    pub valid: u32,
    pub length: u32,
    pub signum: u32,
    pub si_code: u32,
    pub fault_addr: u32,
}

impl ExecutionResult {
    /// The executed bytes: the first `min(length, 16)` raw bytes.
    pub open spec fn executed_bytes(self) -> Seq<u8> {
        self.instruction.spec_bytes().take(instruction::clamp16(self.length as nat) as int)
    }

    /// Hex of the executed bytes.
    pub fn executed_key_hex(&self) -> (r: String)
        ensures
            r@ == instruction::hex_pairs(self.executed_bytes()),
    {
        format_full_hex(self.instruction.executed_prefix(self.length as usize))
    }

    /// Hex of all 16 raw bytes.
    pub fn raw_payload_hex(&self) -> (r: String)
        ensures
            r@ == instruction::hex_pairs(self.instruction.spec_bytes()),
    {
        format_full_hex(self.instruction.bytes().as_slice())
    }
}

impl Default for ExecutionResult {
    fn default() -> (r: Self)
        ensures
            r.disasm.length == 0,
            !r.disasm.known,
            r.instruction.spec_bytes() == Seq::new(16, |i: int| 0u8),
            r.instruction.spec_len() == 0,
            r.valid == 0,
            r.length == 0,
            r.signum == 0,
            r.si_code == 0,
            r.fault_addr == 0,
    {
        ExecutionResult {
            disasm: DisasmResult::default(),
            instruction: InstructionBytes::default(),
            valid: 0,
            length: 0,
            signum: 0,
            si_code: 0,
            fault_addr: 0,
        }
    }
}

} // verus!
