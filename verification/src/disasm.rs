//! Disassembler backends: what a decoder says of a candidate's first
//! instruction.
use vstd::prelude::*;

use crate::instruction::{InstructionBytes, MAX_INSN_LENGTH};
use crate::result::DisasmResult;
use crate::text::{chars_of, string_push};

verus! {

broadcast use InstructionBytes::lemma_shape;

/// A decoded first instruction.
#[derive(Clone, Debug, PartialEq, Eq)]
pub struct DecodeOutput {
    pub mnemonic: String,
    pub operands: String,
    pub length: u32,
    pub known: bool,
}

#[derive(Clone, Debug, PartialEq, Eq)]
pub struct DecodeError {
    pub message: String,
}

/// What a decoded first instruction holds, strings by their characters.
pub struct DecodeModel {
    pub mnemonic: Seq<char>,
    pub operands: Seq<char>,
    pub length: u32,
    pub known: bool,
}

/// What a decoder's answer holds: the decoded instruction, or the error
/// message.
pub open spec fn decode_model(r: Result<DecodeOutput, DecodeError>) -> Result<DecodeModel, Seq<char>> {
    match r {
        Ok(d) => Ok(
            DecodeModel { mnemonic: d.mnemonic@, operands: d.operands@, length: d.length, known: d.known },
        ),
        Err(e) => Err(e.message@),
    }
}

/// The answer for a candidate the decoder does not know.
pub open spec fn unknown_model(mnemonic: Seq<char>) -> Result<DecodeModel, Seq<char>> {
    Ok(DecodeModel { mnemonic, operands: Seq::empty(), length: 0, known: false })
}

/// A disassembler that decodes the first instruction of a candidate.
/// A decoder that states its name and answers (`obeys_decode_spec`) is held
/// to them; one that does not is held to nothing.
pub trait DisasmBackend {
    /// Whether the decoder states its name and answers.
    open spec fn obeys_decode_spec(&self) -> bool {
        false
    }

    /// The decoder's name, where it states it.
    open spec fn spec_name(&self) -> Seq<char> {
        Seq::empty()
    }

    /// What the decoder answers for `instruction`, where it states it.
    open spec fn spec_decode(&self, instruction: InstructionBytes) -> Result<DecodeModel, Seq<char>> {
        Err(Seq::empty())
    }

    fn name(&self) -> (r: &'static str)
        ensures
            self.obeys_decode_spec() ==> r@ == self.spec_name(),
    ;

    fn decode_first(&self, instruction: &InstructionBytes) -> (r: Result<DecodeOutput, DecodeError>)
        ensures
            self.obeys_decode_spec() ==> decode_model(r) == self.spec_decode(*instruction),
    ;
}

/// The output for a candidate the decoder does not know.
pub open spec fn is_unknown_output(d: DecodeOutput, mnemonic: Seq<char>) -> bool {
    &&& d.mnemonic@ == mnemonic
    &&& d.operands@ == Seq::<char>::empty()
    &&& d.length == 0
    &&& !d.known
}

fn unknown_output(mnemonic: &str) -> (d: DecodeOutput)
    ensures
        is_unknown_output(d, mnemonic@),
{
    DecodeOutput {
        mnemonic: String::from_str(mnemonic),
        operands: String::new(),
        length: 0,
        known: false,
    }
}

/// The disassembly record of a decoder's answer: its length and whether it
/// knew the instruction, or nothing known when it failed.
pub fn disasm_result_of(decoded: &Result<DecodeOutput, DecodeError>) -> (r: DisasmResult)
    ensures
        match decoded {
            Ok(d) => r.length == d.length && r.known == d.known,
            Err(_) => r.length == 0 && !r.known,
        },
{
    match decoded {
        Ok(d) => DisasmResult { length: d.length, known: d.known },
        Err(_) => DisasmResult { length: 0, known: false },
    }
}

/// Decodes `instruction` with `backend` and keeps its length and whether it
/// knew the instruction.
pub fn decode_with_backend<D: DisasmBackend>(backend: &D, instruction: &InstructionBytes) -> (r: DisasmResult)
    ensures
        backend.obeys_decode_spec() ==> match backend.spec_decode(*instruction) {
            Ok(d) => r.length == d.length && r.known == d.known,
            Err(_) => r.length == 0 && !r.known,
        },
{
    let decoded = backend.decode_first(instruction);
    disasm_result_of(&decoded)
}

/// A decoder that knows nothing.
#[derive(Clone, Debug)]
pub struct NullDisassembler;

impl Default for NullDisassembler {
    fn default() -> (r: Self) {
        NullDisassembler
    }
}

impl NullDisassembler {
    pub fn decode(&self, instruction: &InstructionBytes) -> (r: Result<DecodeOutput, DecodeError>)
        ensures
            r matches Ok(d) && is_unknown_output(d, "(unk)"@),
    {
        Ok(unknown_output("(unk)"))
    }
}

impl DisasmBackend for NullDisassembler {
    open spec fn obeys_decode_spec(&self) -> bool {
        true
    }

    open spec fn spec_name(&self) -> Seq<char> {
        "null"@
    }

    /// Nothing is known.
    open spec fn spec_decode(&self, instruction: InstructionBytes) -> Result<DecodeModel, Seq<char>> {
        unknown_model("(unk)"@)
    }

    fn name(&self) -> (r: &'static str) {
        "null"
    }

    fn decode_first(&self, instruction: &InstructionBytes) -> (r: Result<DecodeOutput, DecodeError>) {
        self.decode(instruction)
    }
}

// ---------------------------------------------------------------------------
// iced-x86
// ---------------------------------------------------------------------------

/// What iced-x86's 64-bit decoder (default options) makes of the first
/// instruction of `code`: whether it is invalid, its length in bytes, and
/// the `Debug` name of its mnemonic.
pub uninterp spec fn iced_decode64(code: Seq<u8>) -> (bool, nat, Seq<char>);

/// Decodes the first instruction of `code` with
/// `iced_x86::Decoder::new(64, code, DecoderOptions::NONE).decode()` and
/// returns `is_invalid()`, `len()` and the `Debug` form of `mnemonic()`.
/// Claimed: the three values are those of `iced_decode64(code)`, and the
/// length is at most 15 (iced documents `Instruction::len` as 0-15 bytes).
/// `Decoder::new` panics only for a bitness other than 16, 32 or 64, or a
/// slice whose end address plus 15 overflows, neither of which happens here.
#[verifier::external_body]
fn iced_decode_first(code: &[u8]) -> (r: (bool, usize, String))
    ensures
        r.0 == iced_decode64(code@).0,
        r.1 as nat == iced_decode64(code@).1,
        r.2@ == iced_decode64(code@).2,
        r.1 <= 15,
{
    let mut decoder = iced_x86::Decoder::new(64, code, iced_x86::DecoderOptions::NONE);
    let instruction = decoder.decode();
    (instruction.is_invalid(), instruction.len(), format!("{:?}", instruction.mnemonic()))
}

pub open spec fn ascii_lower(c: char) -> char {
    if 'A' <= c && c <= 'Z' {
        ((c as u32) + 32) as char
    } else {
        c
    }
}

/// `str::to_ascii_lowercase`.
pub open spec fn ascii_lowercase(s: Seq<char>) -> Seq<char> {
    Seq::new(s.len(), |i: int| ascii_lower(s[i]))
}

/// `str::to_ascii_lowercase`.
pub fn to_ascii_lowercase(s: &str) -> (r: String)
    ensures
        r@ == ascii_lowercase(s@),
{
    let cs = chars_of(s);
    let mut out = String::new();
    let mut i: usize = 0;
    while i < cs.len()
        invariant
            i <= cs.len(),
            cs@ == s@,
            out@ == ascii_lowercase(s@).take(i as int),
        decreases cs.len() - i,
    {
        let c = cs[i];
        let l = if 'A' <= c && c <= 'Z' {
            ((c as u8) + 32) as char
        } else {
            c
        };
        string_push(&mut out, l);
        assert(ascii_lowercase(s@).take(i + 1) =~= ascii_lowercase(s@).take(i as int).push(l));
        i = i + 1;
    }
    assert(ascii_lowercase(s@).take(cs.len() as int) =~= ascii_lowercase(s@));
    out
}

/// The decode output for iced's answer (`invalid`, `length`, mnemonic name):
/// unknown when invalid, else the lower-cased mnemonic and the length.
pub fn decode_output_from_iced(invalid: bool, length: usize, mnemonic: &str) -> (r: DecodeOutput)
    requires
        length <= 15,
    ensures
        invalid ==> is_unknown_output(r, "(unk)"@),
        !invalid ==> r.mnemonic@ == ascii_lowercase(mnemonic@) && r.operands@ == Seq::<char>::empty()
            && r.length == length && r.known,
{
    if invalid {
        return unknown_output("(unk)");
    }
    DecodeOutput {
        mnemonic: to_ascii_lowercase(mnemonic),
        operands: String::new(),
        length: length as u32,
        known: true,
    }
}

/// The iced-x86 decoder in 64-bit mode, on the first 15 bytes.
#[derive(Clone, Debug)]
pub struct IcedX86Disassembler;

impl Default for IcedX86Disassembler {
    fn default() -> (r: Self) {
        IcedX86Disassembler
    }
}

impl IcedX86Disassembler {
    pub fn decode(&self, instruction: &InstructionBytes) -> (r: Result<DecodeOutput, DecodeError>)
        ensures
            ({
                let (invalid, len, m) = iced_decode64(instruction.spec_bytes().take(15));
                r matches Ok(d) && (invalid ==> is_unknown_output(d, "(unk)"@)) && (!invalid
                    ==> d.mnemonic@ == ascii_lowercase(m) && d.operands@ == Seq::<char>::empty()
                    && d.length == len && d.known)
            }),
    {
        let bytes = &instruction.bytes().as_slice()[0..MAX_INSN_LENGTH];
        let (invalid, length, mnemonic) = iced_decode_first(bytes);
        Ok(decode_output_from_iced(invalid, length, mnemonic.as_str()))
    }
}

impl DisasmBackend for IcedX86Disassembler {
    open spec fn obeys_decode_spec(&self) -> bool {
        true
    }

    open spec fn spec_name(&self) -> Seq<char> {
        "iced-x86"@
    }

    /// iced's answer on the first 15 bytes: unknown when invalid, else the
    /// lower-cased mnemonic and the length.
    open spec fn spec_decode(&self, instruction: InstructionBytes) -> Result<DecodeModel, Seq<char>> {
        let (invalid, len, m) = iced_decode64(instruction.spec_bytes().take(15));
        if invalid {
            unknown_model("(unk)"@)
        } else {
            Ok(
                DecodeModel {
                    mnemonic: ascii_lowercase(m),
                    operands: Seq::empty(),
                    length: len as u32,
                    known: true,
                },
            )
        }
    }

    fn name(&self) -> (r: &'static str) {
        "iced-x86"
    }

    fn decode_first(&self, instruction: &InstructionBytes) -> (r: Result<DecodeOutput, DecodeError>) {
        self.decode(instruction)
    }
}

// ---------------------------------------------------------------------------
// ARM64
// ---------------------------------------------------------------------------

/// Fixed-width ARM64: every 4-byte candidate is a known 4-byte instruction.
#[derive(Clone, Debug)]
pub struct Arm64FixedDisassembler;

impl Default for Arm64FixedDisassembler {
    fn default() -> (r: Self) {
        Arm64FixedDisassembler
    }
}

impl Arm64FixedDisassembler {
    pub fn decode(&self, instruction: &InstructionBytes) -> (r: Result<DecodeOutput, DecodeError>)
        ensures
            instruction.spec_len() < 4 ==> (r matches Ok(d) && is_unknown_output(d, "(short)"@)),
            instruction.spec_len() >= 4 ==> (r matches Ok(d) && d.mnemonic@ == "aarch64"@
                && d.operands@ == Seq::<char>::empty() && d.length == 4 && d.known),
    {
        if instruction.specified_len() < 4 {
            return Ok(unknown_output("(short)"));
        }
        Ok(
            DecodeOutput {
                mnemonic: String::from_str("aarch64"),
                operands: String::new(),
                length: 4,
                known: true,
            },
        )
    }
}

impl DisasmBackend for Arm64FixedDisassembler {
    open spec fn obeys_decode_spec(&self) -> bool {
        true
    }

    open spec fn spec_name(&self) -> Seq<char> {
        "arm64-fixed"@
    }

    /// Shorter than four bytes: unknown; else a known four-byte instruction.
    open spec fn spec_decode(&self, instruction: InstructionBytes) -> Result<DecodeModel, Seq<char>> {
        if instruction.spec_len() < 4 {
            unknown_model("(short)"@)
        } else {
            Ok(DecodeModel { mnemonic: "aarch64"@, operands: Seq::empty(), length: 4, known: true })
        }
    }

    fn name(&self) -> (r: &'static str) {
        "arm64-fixed"
    }

    fn decode_first(&self, instruction: &InstructionBytes) -> (r: Result<DecodeOutput, DecodeError>) {
        self.decode(instruction)
    }
}

/// The little-endian 32-bit word of four bytes.
pub open spec fn le_word(b0: u8, b1: u8, b2: u8, b3: u8) -> u32 {
    (b0 as u32) | ((b1 as u32) << 8u32) | ((b2 as u32) << 16u32) | ((b3 as u32) << 24u32)
}

/// Zero and the permanently undefined space are unallocated, BRK/HLT-class
/// exception encodings are allocated, and otherwise the op0 classes
/// `0100..=1011` count as allocated.
pub open spec fn spec_likely_allocated(word: u32) -> bool {
    if word == 0 {
        false
    } else if word & 0xffff_0000u32 == 0 {
        false
    } else if word & 0xffe0_001fu32 == 0xd420_0000u32 {
        true
    } else {
        let op0 = (word >> 25u32) & 0x0fu32;
        0b0100 <= op0 && op0 <= 0b1011
    }
}

pub fn arm64_word_is_likely_allocated(word: u32) -> (r: bool)
    ensures
        r == spec_likely_allocated(word),
        word & 0xffff_0000u32 != 0 && 0b0100 <= (word >> 25u32) & 0x0fu32 <= 0b1011 ==> r,
        word & 0xffff_0000u32 == 0 ==> !r,
{
    proof {
        lemma_allocated_classes(word);
    }
    if word == 0 {
        return false;
    }
    if (word & 0xffff_0000) == 0 {
        return false;
    }
    if (word & 0xffe0_001f) == 0xd420_0000 {
        return true;
    }
    let op0 = (word >> 25) & 0x0f;
    0b0100 <= op0 && op0 <= 0b1011
}

/// Heuristic ARM64: a 4-byte candidate is known when its word lies in the
/// broadly allocated encoding space.
#[derive(Clone, Debug)]
pub struct Arm64HeuristicDisassembler;

impl Default for Arm64HeuristicDisassembler {
    fn default() -> (r: Self) {
        Arm64HeuristicDisassembler
    }
}

impl Arm64HeuristicDisassembler {
    pub fn decode(&self, instruction: &InstructionBytes) -> (r: Result<DecodeOutput, DecodeError>)
        ensures
            instruction.spec_len() < 4 ==> (r matches Ok(d) && is_unknown_output(d, "(short)"@)),
            instruction.spec_len() >= 4 ==> {
                let b = instruction.spec_bytes();
                let known = spec_likely_allocated(le_word(b[0], b[1], b[2], b[3]));
                r matches Ok(d) && d.known == known && d.length == (if known {
                    4u32
                } else {
                    0u32
                }) && d.mnemonic@ == (if known {
                    "aarch64"@
                } else {
                    "(unk)"@
                }) && d.operands@ == Seq::<char>::empty()
            },
    {
        if instruction.specified_len() < 4 {
            return Ok(unknown_output("(short)"));
        }
        let raw = instruction.bytes();
        let word: u32 = (raw[0] as u32) | ((raw[1] as u32) << 8) | ((raw[2] as u32) << 16) | ((
        raw[3] as u32) << 24);
        let known = arm64_word_is_likely_allocated(word);
        Ok(
            DecodeOutput {
                mnemonic: String::from_str(
                    if known {
                        "aarch64"
                    } else {
                        "(unk)"
                    },
                ),
                operands: String::new(),
                length: if known {
                    4
                } else {
                    0
                },
                known,
            },
        )
    }
}

impl DisasmBackend for Arm64HeuristicDisassembler {
    open spec fn obeys_decode_spec(&self) -> bool {
        true
    }

    open spec fn spec_name(&self) -> Seq<char> {
        "arm64-heuristic"@
    }

    /// Shorter than four bytes: unknown; else known, four bytes long, when
    /// the little-endian word is likely allocated.
    open spec fn spec_decode(&self, instruction: InstructionBytes) -> Result<DecodeModel, Seq<char>> {
        if instruction.spec_len() < 4 {
            unknown_model("(short)"@)
        } else {
            let b = instruction.spec_bytes();
            if spec_likely_allocated(le_word(b[0], b[1], b[2], b[3])) {
                Ok(DecodeModel { mnemonic: "aarch64"@, operands: Seq::empty(), length: 4, known: true })
            } else {
                unknown_model("(unk)"@)
            }
        }
    }

    fn name(&self) -> (r: &'static str) {
        "arm64-heuristic"
    }

    fn decode_first(&self, instruction: &InstructionBytes) -> (r: Result<DecodeOutput, DecodeError>) {
        self.decode(instruction)
    }
}


/// The ARM64 heuristic: a word outside the zero and permanently undefined
/// space (its upper half not zero) whose op0 field, bits 25 to 28, names one
/// of the classes `0100` to `1011` (data processing, loads and stores,
/// branches) counts as allocated; a word whose upper half is zero never
/// does.
pub proof fn lemma_allocated_classes(word: u32)
    ensures
        word & 0xffff_0000u32 != 0 && 0b0100 <= (word >> 25u32) & 0x0fu32 <= 0b1011
            ==> spec_likely_allocated(word),
        word & 0xffff_0000u32 == 0 ==> !spec_likely_allocated(word),
{
    if word & 0xffff_0000u32 != 0 {
        assert(word != 0) by (bit_vector)
            requires
                word & 0xffff_0000u32 != 0,
        ;
    }
}

/// The heuristic decoder knows a candidate of at least four bytes, with
/// length 4, when its little-endian word lies in an allocated class, and
/// knows no candidate whose word has a zero upper half.
pub proof fn lemma_heuristic_decodes_classes(d: Arm64HeuristicDisassembler, instruction: InstructionBytes)
    requires
        instruction.spec_len() >= 4,
    ensures
        ({
            let b = instruction.spec_bytes();
            let w = le_word(b[0], b[1], b[2], b[3]);
            &&& (w & 0xffff_0000u32 != 0 && 0b0100 <= (w >> 25u32) & 0x0fu32 <= 0b1011) ==> (
            d.spec_decode(instruction) matches Ok(m) && m.known && m.length == 4)
            &&& w & 0xffff_0000u32 == 0 ==> (d.spec_decode(instruction) matches Ok(m) && !m.known
                && m.length == 0)
        }),
{
    let b = instruction.spec_bytes();
    lemma_allocated_classes(le_word(b[0], b[1], b[2], b[3]));
}

} // verus!
