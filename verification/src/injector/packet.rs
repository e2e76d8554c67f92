//! The records an injector hands to its frontend: the fixed legacy binary
//! layout, the tab-separated `SB1` line and the text report line.
use vstd::prelude::*;

use crate::instruction::{self, format_full_hex, parse_hex_instruction, InstructionBytes, RAW_REPORT_INSN_BYTES};
use crate::result::{DisasmResult, ExecutionResult};
use crate::target::{self, TargetSpec};
use crate::text;
use crate::text::{
    chars_eq, chars_of, join_strings, parse_decimal, parse_hex, push_chars, push_decimal,
    push_decimal_w, push_hex_zw, push_str, split_char_of, string_of, string_push, trim_end_chars,
};
use crate::text_laws;

verus! {

broadcast use InstructionBytes::lemma_shape;

/// First field of every versioned packet line.
pub const VERSIONED_PACKET_PREFIX: &'static str = "SB1";

// ---------------------------------------------------------------------------
// Binary layout
// ---------------------------------------------------------------------------

/// The 44-byte legacy injector record: seven native-endian `u32`
/// fields around the 16 raw instruction bytes.
#[derive(Clone, Copy, Debug, PartialEq, Eq)]
pub struct RawInjectorPacket {
    pub disas_length: u32,
    pub disas_known: u32,
    pub raw_insn: [u8; RAW_REPORT_INSN_BYTES],
    pub valid: u32,
    pub length: u32,
    pub signum: u32,
    pub si_code: u32,
    pub fault_addr: u32,
}

/// Little-endian bytes of `x`.
pub open spec fn le_bytes(x: u32) -> Seq<u8> {
    seq![
        (x % 0x100) as u8,
        ((x / 0x100) % 0x100) as u8,
        ((x / 0x1_0000) % 0x100) as u8,
        (x / 0x100_0000) as u8,
    ]
}

/// Big-endian bytes of `x`.
pub open spec fn be_bytes(x: u32) -> Seq<u8> {
    seq![
        (x / 0x100_0000) as u8,
        ((x / 0x1_0000) % 0x100) as u8,
        ((x / 0x100) % 0x100) as u8,
        (x % 0x100) as u8,
    ]
}

/// `b` holds `x` in one of the two byte orders a machine can have.
pub open spec fn native_encoding(b: Seq<u8>, x: u32) -> bool {
    b == le_bytes(x) || b == be_bytes(x)
}

/// Where each field of `p` stands in the 44 bytes `b`.
pub open spec fn raw_layout(b: Seq<u8>, p: RawInjectorPacket) -> bool {
    &&& b.len() == 44
    &&& native_encoding(b.subrange(0, 4), p.disas_length)
    &&& native_encoding(b.subrange(4, 8), p.disas_known)
    &&& b.subrange(8, 24) == p.raw_insn@
    &&& native_encoding(b.subrange(24, 28), p.valid)
    &&& native_encoding(b.subrange(28, 32), p.length)
    &&& native_encoding(b.subrange(32, 36), p.signum)
    &&& native_encoding(b.subrange(36, 40), p.si_code)
    &&& native_encoding(b.subrange(40, 44), p.fault_addr)
}

/// The bytes of `x` in one byte order: little-endian when `little`.
pub open spec fn order_bytes(x: u32, little: bool) -> Seq<u8> {
    if little {
        le_bytes(x)
    } else {
        be_bytes(x)
    }
}

/// `b` holds every field of `p` in the one byte order `little` names.
pub open spec fn raw_layout_in(b: Seq<u8>, p: RawInjectorPacket, little: bool) -> bool {
    &&& b.len() == 44
    &&& b.subrange(0, 4) == order_bytes(p.disas_length, little)
    &&& b.subrange(4, 8) == order_bytes(p.disas_known, little)
    &&& b.subrange(8, 24) == p.raw_insn@
    &&& b.subrange(24, 28) == order_bytes(p.valid, little)
    &&& b.subrange(28, 32) == order_bytes(p.length, little)
    &&& b.subrange(32, 36) == order_bytes(p.signum, little)
    &&& b.subrange(36, 40) == order_bytes(p.si_code, little)
    &&& b.subrange(40, 44) == order_bytes(p.fault_addr, little)
}

/// Each byte order tells its values apart.
proof fn lemma_order_bytes_injective(x: u32, y: u32, little: bool)
    requires
        order_bytes(x, little) == order_bytes(y, little),
    ensures
        x == y,
{
    let a = order_bytes(x, little);
    let b = order_bytes(y, little);
    assert(a[0] == b[0] && a[1] == b[1] && a[2] == b[2] && a[3] == b[3]);
    assert(x % 0x100 == y % 0x100);
    assert((x / 0x100) % 0x100 == (y / 0x100) % 0x100);
    assert((x / 0x1_0000) % 0x100 == (y / 0x1_0000) % 0x100);
    assert(x / 0x100_0000 == y / 0x100_0000);
    assert(x == y) by (bit_vector)
        requires
            x % 0x100 == y % 0x100,
            (x / 0x100) % 0x100 == (y / 0x100) % 0x100,
            (x / 0x1_0000) % 0x100 == (y / 0x1_0000) % 0x100,
            x / 0x100_0000 == y / 0x100_0000,
    ;
}

/// On a machine that keeps one byte order, the 44 bytes of a record give the
/// record back: two records laid out in the same bytes, in the same order,
/// are the same record.
pub proof fn lemma_raw_round_trip(b: Seq<u8>, p: RawInjectorPacket, q: RawInjectorPacket, little: bool)
    requires
        raw_layout_in(b, p, little),
        raw_layout_in(b, q, little),
    ensures
        p == q,
{
    lemma_order_bytes_injective(p.disas_length, q.disas_length, little);
    lemma_order_bytes_injective(p.disas_known, q.disas_known, little);
    lemma_order_bytes_injective(p.valid, q.valid, little);
    lemma_order_bytes_injective(p.length, q.length, little);
    lemma_order_bytes_injective(p.signum, q.signum, little);
    lemma_order_bytes_injective(p.si_code, q.si_code, little);
    lemma_order_bytes_injective(p.fault_addr, q.fault_addr, little);
    assert(p.raw_insn =~= q.raw_insn) by {
        assert forall|i: int| 0 <= i < 16 implies p.raw_insn[i] == q.raw_insn[i] by {
            assert(p.raw_insn@[i] == b.subrange(8, 24)[i]);
            assert(q.raw_insn@[i] == b.subrange(8, 24)[i]);
        }
    }
}

/// `u32::to_ne_bytes`: the machine's byte order, little- or big-endian.
#[verifier::external_body]
fn u32_to_ne(x: u32) -> (r: [u8; 4])
    ensures
        native_encoding(r@, x),
{
    x.to_ne_bytes()
}

/// `u32::from_ne_bytes`: the value whose machine-order bytes are `b`.
#[verifier::external_body]
fn u32_from_ne(b: [u8; 4]) -> (r: u32)
    ensures
        native_encoding(b@, r),
{
    u32::from_ne_bytes(b)
}

/// Writes `b` at `at..at + 4`.
fn put4(out: &mut [u8; 44], at: usize, b: [u8; 4])
    requires
        at + 4 <= 44,
    ensures
        final(out)@ == old(out)@.subrange(0, at as int) + b@ + old(out)@.subrange(at + 4, 44),
{
    let ghost start = out@;
    out[at] = b[0];
    out[at + 1] = b[1];
    out[at + 2] = b[2];
    out[at + 3] = b[3];
    assert(out@ =~= start.subrange(0, at as int) + b@ + start.subrange(at + 4, 44));
}

/// The bytes at `at..at + 4`.
fn take4(bytes: &[u8; 44], at: usize) -> (r: [u8; 4])
    requires
        at + 4 <= 44,
    ensures
        r@ == bytes@.subrange(at as int, at + 4),
{
    let r = [bytes[at], bytes[at + 1], bytes[at + 2], bytes[at + 3]];
    assert(r@ =~= bytes@.subrange(at as int, at + 4));
    r
}

impl RawInjectorPacket {
    /// The record of `result`.
    pub fn from_execution_result(result: &ExecutionResult) -> (r: Self)
        ensures
            r.disas_length == result.disasm.length,
            r.disas_known == (if result.disasm.known {
                1u32
            } else {
                0u32
            }),
            r.raw_insn@ == result.instruction.spec_bytes(),
            r.valid == result.valid,
            r.length == result.length,
            r.signum == result.signum,
            r.si_code == result.si_code,
            r.fault_addr == result.fault_addr,
    {
        Self {
            disas_length: result.disasm.length,
            disas_known: if result.disasm.known {
                1
            } else {
                0
            },
            raw_insn: *result.instruction.bytes(),
            valid: result.valid,
            length: result.length,
            signum: result.signum,
            si_code: result.si_code,
            fault_addr: result.fault_addr,
        }
    }

    /// The 44-byte layout.
    pub fn to_bytes(self) -> (r: [u8; 44])
        ensures
            raw_layout(r@, self),
    {
        let mut out = [0u8; 44];
        let b0 = u32_to_ne(self.disas_length);
        put4(&mut out, 0, b0);
        let b1 = u32_to_ne(self.disas_known);
        let ghost o0 = out@;
        put4(&mut out, 4, b1);
        assert(out@.subrange(0, 4) =~= o0.subrange(0, 4));
        assert(o0.subrange(0, 4) =~= b0@);
        assert(out@.subrange(4, 8) =~= b1@);
        let mut i: usize = 0;
        while i < 16
            invariant
                i <= 16,
                out@.len() == 44,
                out@.subrange(0, 4) == b0@,
                out@.subrange(4, 8) == b1@,
                forall|j: int| 0 <= j < i ==> out@[8 + j] == self.raw_insn@[j],
            decreases 16 - i,
        {
            let ghost before = out@;
            out[8 + i] = self.raw_insn[i];
            assert(out@.subrange(0, 4) =~= before.subrange(0, 4));
            assert(out@.subrange(4, 8) =~= before.subrange(4, 8));
            i = i + 1;
        }
        let ghost mid = out@;
        assert(mid.subrange(8, 24) =~= self.raw_insn@);
        let b6 = u32_to_ne(self.valid);
        let b7 = u32_to_ne(self.length);
        let b8 = u32_to_ne(self.signum);
        let b9 = u32_to_ne(self.si_code);
        let b10 = u32_to_ne(self.fault_addr);
        put4(&mut out, 24, b6);
        put4(&mut out, 28, b7);
        put4(&mut out, 32, b8);
        put4(&mut out, 36, b9);
        put4(&mut out, 40, b10);
        assert(out@.subrange(0, 4) =~= mid.subrange(0, 4));
        assert(out@.subrange(4, 8) =~= mid.subrange(4, 8));
        assert(out@.subrange(8, 24) =~= mid.subrange(8, 24));
        assert(out@.subrange(24, 28) =~= b6@);
        assert(out@.subrange(28, 32) =~= b7@);
        assert(out@.subrange(32, 36) =~= b8@);
        assert(out@.subrange(36, 40) =~= b9@);
        assert(out@.subrange(40, 44) =~= b10@);
        out
    }

    /// Reads the 44-byte layout.
    pub fn from_bytes(bytes: [u8; 44]) -> (r: Self)
        ensures
            raw_layout(bytes@, r),
    {
        let mut raw = [0u8; RAW_REPORT_INSN_BYTES];
        let mut i: usize = 0;
        while i < 16
            invariant
                i <= 16,
                raw@.len() == 16,
                forall|j: int| 0 <= j < i ==> raw@[j] == bytes@[8 + j],
            decreases 16 - i,
        {
            raw[i] = bytes[8 + i];
            i = i + 1;
        }
        assert(bytes@.subrange(8, 24) =~= raw@);
        Self {
            disas_length: u32_from_ne(take4(&bytes, 0)),
            disas_known: u32_from_ne(take4(&bytes, 4)),
            raw_insn: raw,
            valid: u32_from_ne(take4(&bytes, 24)),
            length: u32_from_ne(take4(&bytes, 28)),
            signum: u32_from_ne(take4(&bytes, 32)),
            si_code: u32_from_ne(take4(&bytes, 36)),
            fault_addr: u32_from_ne(take4(&bytes, 40)),
        }
    }

    /// The result this record describes; the specified length of the
    /// instruction is the executed length, at most 16.
    pub fn into_execution_result(self) -> (r: ExecutionResult)
        ensures
            r.disasm.length == self.disas_length,
            r.disasm.known == (self.disas_known != 0),
            r.instruction.spec_bytes() == self.raw_insn@,
            r.instruction.spec_len() == instruction::clamp16(self.length as nat),
            r.valid == self.valid,
            r.length == self.length,
            r.signum == self.signum,
            r.si_code == self.si_code,
            r.fault_addr == self.fault_addr,
    {
        let mut instruction = InstructionBytes::new(self.raw_insn, RAW_REPORT_INSN_BYTES);
        instruction.set_specified_len(self.length as usize);
        ExecutionResult {
            disasm: DisasmResult { length: self.disas_length, known: self.disas_known != 0 },
            instruction,
            valid: self.valid,
            length: self.length,
            signum: self.signum,
            si_code: self.si_code,
            fault_addr: self.fault_addr,
        }
    }
}

// ---------------------------------------------------------------------------
// Versioned line
// ---------------------------------------------------------------------------

/// A result together with the target it was produced on.
#[derive(Clone, Copy, Debug, PartialEq, Eq)]
pub struct VersionedPacket {
    pub target: TargetSpec,
    pub result: ExecutionResult,
}

/// The eleven fields of a packet line.
pub open spec fn packet_fields(t: TargetSpec, r: ExecutionResult) -> Seq<Seq<char>> {
    seq![
        VERSIONED_PACKET_PREFIX@,
        target::spec_platform_name(t.platform),
        target::spec_arch_name(t.architecture),
        text::decimal(r.disasm.length as nat),
        text::decimal(
            if r.disasm.known {
                1
            } else {
                0
            },
        ),
        text::decimal(r.valid as nat),
        text::decimal(r.length as nat),
        text::decimal(r.signum as nat),
        text::decimal(r.si_code as nat),
        text::hex_zw(r.fault_addr as nat, 8),
        instruction::hex_pairs(r.instruction.spec_bytes()),
    ]
}

/// The packet line: the fields joined by tabs, then a line feed.
pub open spec fn packet_line(t: TargetSpec, r: ExecutionResult) -> Seq<char> {
    text::join(packet_fields(t, r), '\t').push('\n')
}

/// The numbers a packet line carries: disassembled length, known (0 or 1),
/// valid, length, signal, signal code and fault address.
pub open spec fn packet_numbers(r: ExecutionResult) -> Seq<nat> {
    seq![
        r.disasm.length as nat,
        if r.disasm.known {
            1
        } else {
            0
        },
        r.valid as nat,
        r.length as nat,
        r.signum as nat,
        r.si_code as nat,
        r.fault_addr as nat,
    ]
}

/// What a packet line carries of a packet: its target, its numbers and the
/// 16 raw instruction bytes.
pub open spec fn packet_record(p: VersionedPacket) -> (TargetSpec, Seq<nat>, Seq<u8>) {
    (p.target, packet_numbers(p.result), p.result.instruction.spec_bytes())
}

/// The targets a packet line can name.
pub open spec fn packet_target(platform: Seq<char>, arch: Seq<char>) -> Option<TargetSpec> {
    if platform == "linux"@ && arch == "x86_64"@ {
        Some(target::spec_linux_x86_64())
    } else if platform == "android"@ && arch == "arm64"@ {
        Some(target::spec_android_arm64())
    } else if platform == "ios"@ && arch == "arm64"@ {
        Some(target::spec_ios_arm64())
    } else {
        None
    }
}

/// A decimal `u32` field.
pub open spec fn u32_field(v: Seq<char>) -> Option<nat> {
    text::parse_unsigned(v, 0xffff_ffff)
}

pub open spec fn msg_bad_number(name: Seq<char>, value: Seq<char>) -> Seq<char> {
    "bad numeric field "@ + name + ": "@ + value
}

/// The fields of a line: its end trimmed, split at tabs.
pub open spec fn line_fields(line: Seq<char>) -> Seq<Seq<char>> {
    text::split_char(text::trim_end(line), '\t')
}

/// What `parse_line` gives for `line`: the record, or the error message. The
/// checks come in this order: field count and prefix, target, raw hex, then
/// the numbers `length`, `disas_length`, `disas_known`, `valid`, `signum`,
/// `si_code` and last the hex fault address.
pub open spec fn spec_parse_packet(line: Seq<char>) -> Result<(TargetSpec, Seq<nat>, Seq<u8>), Seq<char>> {
    let f = line_fields(line);
    if f.len() != 11 || f[0] != VERSIONED_PACKET_PREFIX@ {
        Err("not a sandblaster v1 packet"@)
    } else if packet_target(f[1], f[2]) is None {
        Err("unsupported packet target "@ + f[1] + "/"@ + f[2])
    } else if instruction::spec_parse_hex(f[10]) is Err {
        Err("bad raw hex: "@ + instruction::spec_parse_hex(f[10])->Err_0)
    } else if u32_field(f[6]) is None {
        Err(msg_bad_number("length"@, f[6]))
    } else if u32_field(f[3]) is None {
        Err(msg_bad_number("disas_length"@, f[3]))
    } else if u32_field(f[4]) is None {
        Err(msg_bad_number("disas_known"@, f[4]))
    } else if u32_field(f[5]) is None {
        Err(msg_bad_number("valid"@, f[5]))
    } else if u32_field(f[7]) is None {
        Err(msg_bad_number("signum"@, f[7]))
    } else if u32_field(f[8]) is None {
        Err(msg_bad_number("si_code"@, f[8]))
    } else if text::parse_hex_unsigned(f[9], 0xffff_ffff) is None {
        Err("bad fault_addr"@)
    } else {
        Ok(
            (
                packet_target(f[1], f[2])->0,
                seq![
                    u32_field(f[3])->0,
                    if u32_field(f[4])->0 != 0 {
                        1
                    } else {
                        0
                    },
                    u32_field(f[5])->0,
                    u32_field(f[6])->0,
                    u32_field(f[7])->0,
                    u32_field(f[8])->0,
                    text::parse_hex_unsigned(f[9], 0xffff_ffff)->0,
                ],
                instruction::zero_extend(instruction::spec_parse_hex(f[10])->Ok_0),
            ),
        )
    }
}

/// Whether `t` is one of the targets a packet line can name.
pub open spec fn is_packet_target(t: TargetSpec) -> bool {
    ||| t == target::spec_linux_x86_64()
    ||| t == target::spec_android_arm64()
    ||| t == target::spec_ios_arm64()
}

/// `to_string` of a number.
fn decimal_string(n: u64) -> (r: String)
    ensures
        r@ == text::decimal(n as nat),
{
    let mut s = String::new();
    push_decimal(&mut s, n);
    s
}

/// Reads a decimal `u32` field named `field`.
fn parse_u32_field(value: &[char], field: &str) -> (r: Result<u32, String>)
    ensures
        match r {
            Ok(v) => u32_field(value@) == Some(v as nat),
            Err(e) => u32_field(value@) is None && e@ == msg_bad_number(field@, value@),
        },
{
    match parse_decimal(value, 0xffff_ffff) {
        Some(v) => Ok(v as u32),
        None => {
            let mut e = String::new();
            push_str(&mut e, "bad numeric field ");
            push_str(&mut e, field);
            push_str(&mut e, ": ");
            push_chars(&mut e, value);
            Err(e)
        },
    }
}

impl VersionedPacket {
    pub fn from_execution_result(target: TargetSpec, result: &ExecutionResult) -> (r: Self)
        ensures
            r.target == target,
            r.result == *result,
    {
        Self { target, result: *result }
    }

    /// The packet line.
    pub fn to_line(&self) -> (r: String)
        ensures
            r@ == packet_line(self.target, self.result),
    {
        let res = &self.result;
        let mut parts: Vec<String> = Vec::new();
        parts.push(String::from_str(VERSIONED_PACKET_PREFIX));
        parts.push(String::from_str(self.target.platform.as_str()));
        parts.push(String::from_str(self.target.architecture.as_str()));
        parts.push(decimal_string(res.disasm.length as u64));
        parts.push(
            decimal_string(
                if res.disasm.known {
                    1
                } else {
                    0
                },
            ),
        );
        parts.push(decimal_string(res.valid as u64));
        parts.push(decimal_string(res.length as u64));
        parts.push(decimal_string(res.signum as u64));
        parts.push(decimal_string(res.si_code as u64));
        let mut fault = String::new();
        push_hex_zw(&mut fault, res.fault_addr as u64, 8);
        parts.push(fault);
        parts.push(res.raw_payload_hex());
        assert(text::views(parts@) =~= packet_fields(self.target, self.result));
        let mut line = join_strings(&parts, '\t');
        string_push(&mut line, '\n');
        line
    }

    /// Reads a packet line; the instruction's specified length is the
    /// executed length, at most 16.
    pub fn parse_line(line: &str) -> (r: Result<Self, String>)
        ensures
            match r {
                Ok(p) => spec_parse_packet(line@) == Ok::<_, Seq<char>>(packet_record(p))
                    && p.result.instruction.spec_len() == instruction::clamp16(
                    p.result.length as nat,
                ),
                Err(e) => spec_parse_packet(line@) == Err::<(TargetSpec, Seq<nat>, Seq<u8>), _>(
                    e@,
                ),
            },
    {
        let chars = chars_of(line);
        let trimmed = trim_end_chars(chars.as_slice());
        let fields = split_char_of(trimmed.as_slice(), '\t');
        let ghost f = line_fields(line@);
        assert(fields.deep_view() == f);
        assert forall|i: int| 0 <= i < fields.len() implies (#[trigger] fields@[i])@ == f[i] by {
            assert(fields.deep_view()[i] == fields@[i]@);
        }
        if fields.len() != 11 || !chars_eq(fields[0].as_slice(), VERSIONED_PACKET_PREFIX) {
            return Err(String::from_str("not a sandblaster v1 packet"));
        }
        let platform = fields[1].as_slice();
        let arch = fields[2].as_slice();
        let target = if chars_eq(platform, "linux") && chars_eq(arch, "x86_64") {
            TargetSpec::linux_x86_64()
        } else if chars_eq(platform, "android") && chars_eq(arch, "arm64") {
            TargetSpec::android_arm64()
        } else if chars_eq(platform, "ios") && chars_eq(arch, "arm64") {
            TargetSpec::ios_arm64()
        } else {
            let mut e = String::new();
            push_str(&mut e, "unsupported packet target ");
            push_chars(&mut e, platform);
            push_str(&mut e, "/");
            push_chars(&mut e, arch);
            return Err(e);
        };
        let raw_text = string_of(fields[10].as_slice());
        let mut instruction = match parse_hex_instruction(raw_text.as_str()) {
            Ok(ib) => ib,
            Err(error) => {
                let mut e = String::new();
                push_str(&mut e, "bad raw hex: ");
                push_str(&mut e, error.as_str());
                return Err(e);
            },
        };
        let length = match parse_u32_field(fields[6].as_slice(), "length") {
            Ok(v) => v,
            Err(e) => return Err(e),
        };
        instruction.set_specified_len(length as usize);
        let disas_length = match parse_u32_field(fields[3].as_slice(), "disas_length") {
            Ok(v) => v,
            Err(e) => return Err(e),
        };
        let disas_known = match parse_u32_field(fields[4].as_slice(), "disas_known") {
            Ok(v) => v,
            Err(e) => return Err(e),
        };
        let valid = match parse_u32_field(fields[5].as_slice(), "valid") {
            Ok(v) => v,
            Err(e) => return Err(e),
        };
        let signum = match parse_u32_field(fields[7].as_slice(), "signum") {
            Ok(v) => v,
            Err(e) => return Err(e),
        };
        let si_code = match parse_u32_field(fields[8].as_slice(), "si_code") {
            Ok(v) => v,
            Err(e) => return Err(e),
        };
        let fault_addr = match parse_hex(fields[9].as_slice(), 0xffff_ffff) {
            Some(v) => v as u32,
            None => return Err(String::from_str("bad fault_addr")),
        };
        let p = Self {
            target,
            result: ExecutionResult {
                disasm: DisasmResult { length: disas_length, known: disas_known != 0 },
                instruction,
                valid,
                length,
                signum,
                si_code,
                fault_addr,
            },
        };
        assert(packet_numbers(p.result) =~= spec_parse_packet(line@)->Ok_0.1);
        Ok(p)
    }
}

/// A packet line written for one of the targets a line can name reads back
/// as the same target, the same numbers and the same 16 instruction bytes.
pub proof fn lemma_packet_round_trip(p: VersionedPacket)
    requires
        is_packet_target(p.target),
    ensures
        spec_parse_packet(packet_line(p.target, p.result)) == Ok::<_, Seq<char>>(packet_record(p)),
{
    let r = p.result;
    let fs = packet_fields(p.target, r);
    let body = text::join(fs, '\t');
    let bytes = r.instruction.spec_bytes();
    let known: nat = if r.disasm.known {
        1
    } else {
        0
    };
    text_laws::lemma_decimal_digits(r.disasm.length as nat);
    text_laws::lemma_decimal_digits(known);
    text_laws::lemma_decimal_digits(r.valid as nat);
    text_laws::lemma_decimal_digits(r.length as nat);
    text_laws::lemma_decimal_digits(r.signum as nat);
    text_laws::lemma_decimal_digits(r.si_code as nat);
    text_laws::lemma_parse_decimal_of(r.disasm.length as nat, 0xffff_ffff);
    text_laws::lemma_parse_decimal_of(known, 0xffff_ffff);
    text_laws::lemma_parse_decimal_of(r.valid as nat, 0xffff_ffff);
    text_laws::lemma_parse_decimal_of(r.length as nat, 0xffff_ffff);
    text_laws::lemma_parse_decimal_of(r.signum as nat, 0xffff_ffff);
    text_laws::lemma_parse_decimal_of(r.si_code as nat, 0xffff_ffff);
    text_laws::lemma_parse_hex_zw_of(r.fault_addr as nat, 8, 0xffff_ffff);
    instruction::lemma_hex_round_trip(bytes);
    instruction::lemma_hex_pairs_shape(bytes);
    lemma_fields_plain(p.target, r);
    text_laws::lemma_split_join(fs, '\t');
    let last = instruction::hex_pairs(bytes);
    assert(last.len() == 32);
    assert(body == text::join(fs.drop_last(), '\t') + seq!['\t'] + last);
    assert(body.last() == last.last());
    instruction::lemma_hex_pair_char_plain(bytes, 31);
    text_laws::lemma_trim_end_newline(body);
    assert(line_fields(packet_line(p.target, r)) == fs);
    lemma_zero_extend_full(bytes);
    reveal_strlit("linux");
    reveal_strlit("android");
    reveal_strlit("ios");
    reveal_strlit("x86_64");
    reveal_strlit("arm64");
    assert("android"@.len() == 7 && "linux"@.len() == 5 && "ios"@.len() == 3);
    assert("x86_64"@.len() == 6 && "arm64"@.len() == 5);
    if p.target == target::spec_linux_x86_64() {
        assert(fs[1] == "linux"@ && fs[2] == "x86_64"@);
    } else if p.target == target::spec_android_arm64() {
        assert(fs[1] == "android"@ && fs[2] == "arm64"@);
        assert(fs[1] != "linux"@);
    } else {
        assert(fs[1] == "ios"@ && fs[2] == "arm64"@);
        assert(fs[1] != "linux"@);
        assert(fs[1] != "android"@);
    }
    assert(packet_target(fs[1], fs[2]) == Some(p.target));
    let f = line_fields(packet_line(p.target, r));
    assert(seq![
        u32_field(f[3])->0,
        if u32_field(f[4])->0 != 0 {
            1
        } else {
            0
        },
        u32_field(f[5])->0,
        u32_field(f[6])->0,
        u32_field(f[7])->0,
        u32_field(f[8])->0,
        text::parse_hex_unsigned(f[9], 0xffff_ffff)->0,
    ] =~= packet_numbers(r));
}

/// Zero-extending 16 bytes changes nothing.
proof fn lemma_zero_extend_full(b: Seq<u8>)
    requires
        b.len() == 16,
    ensures
        instruction::zero_extend(b) == b,
{
    assert(instruction::zero_extend(b) =~= b);
}

/// No field of a packet line holds a tab.
proof fn lemma_fields_plain(t: TargetSpec, r: ExecutionResult)
    requires
        is_packet_target(t),
    ensures
        forall|i: int|
            0 <= i < packet_fields(t, r).len() ==> !(#[trigger] packet_fields(t, r)[i]).contains(
                '\t',
            ),
{
    let fs = packet_fields(t, r);
    reveal_strlit("SB1");
    reveal_strlit("linux");
    reveal_strlit("android");
    reveal_strlit("ios");
    reveal_strlit("x86_64");
    reveal_strlit("arm64");
    let bytes = r.instruction.spec_bytes();
    instruction::lemma_hex_pairs_shape(bytes);
    assert forall|i: int| 0 <= i < fs.len() implies !(#[trigger] fs[i]).contains('\t') by {
        let f = fs[i];
        if f.contains('\t') {
            let j = choose|j: int| 0 <= j < f.len() && f[j] == '\t';
            if 3 <= i <= 8 {
                let n: nat = if i == 3 {
                    r.disasm.length as nat
                } else if i == 4 {
                    if r.disasm.known {
                        1
                    } else {
                        0
                    }
                } else if i == 5 {
                    r.valid as nat
                } else if i == 6 {
                    r.length as nat
                } else if i == 7 {
                    r.signum as nat
                } else {
                    r.si_code as nat
                };
                text_laws::lemma_decimal_digits(n);
                assert(f == text::decimal(n));
                assert(text::is_digit(f[j]));
            } else if i == 9 {
                text_laws::lemma_hex_digits(r.fault_addr as nat);
                let h = text::hex(r.fault_addr as nat);
                if h.len() < 8 {
                    let k = 8 - h.len();
                    if j >= k {
                        assert(f[j] == h[j - k]);
                        assert(text::is_hex_digit(h[j - k]));
                    }
                } else {
                    assert(text::is_hex_digit(h[j]));
                }
            } else if i == 10 {
                instruction::lemma_hex_pair_char_plain(bytes, j);
            }
        }
    }
}

// ---------------------------------------------------------------------------
// Text report
// ---------------------------------------------------------------------------

/// The human-readable report line of the injector.
#[derive(Clone, Debug, PartialEq, Eq)]
pub struct TextReport(pub String);

/// The padded signal name of a report line.
pub open spec fn signal_label(signum: u32) -> Seq<char> {
    if signum == 4 {
        "sigill "@
    } else if signum == 11 {
        "sigsegv"@
    } else if signum == 8 {
        "sigfpe "@
    } else if signum == 7 {
        "sigbus "@
    } else if signum == 5 {
        "sigtrap"@
    } else {
        "unknown"@
    }
}

/// The report line of `r`: a `.` marks a disassembled length that differs
/// from the executed one; the hex is the executed bytes, then the rest.
pub open spec fn report_line(r: ExecutionResult) -> Seq<char> {
    let n = instruction::clamp16(r.length as nat);
    " "@ + (if r.disasm.length == r.length {
        " "@
    } else {
        "."@
    }) + "r: ("@ + text::decimal_w(r.length as nat, 2) + ") "@ + signal_label(r.signum) + " "@
        + text::decimal_w(r.si_code as nat, 3) + " "@ + text::hex_zw(r.fault_addr as nat, 8) + " "@
        + instruction::hex_pairs(r.instruction.spec_bytes().take(n as int))
        + instruction::hex_pairs(r.instruction.spec_bytes().skip(n as int)) + "\n"@
}

fn signal_label_str(signum: u32) -> (r: &'static str)
    ensures
        r@ == signal_label(signum),
{
    if signum == 4 {
        "sigill "
    } else if signum == 11 {
        "sigsegv"
    } else if signum == 8 {
        "sigfpe "
    } else if signum == 7 {
        "sigbus "
    } else if signum == 5 {
        "sigtrap"
    } else {
        "unknown"
    }
}

impl TextReport {
    pub fn from_execution_result(result: &ExecutionResult) -> (r: Self)
        ensures
            r.0@ == report_line(*result),
    {
        let mut out = String::new();
        push_str(&mut out, " ");
        if result.disasm.length == result.length {
            push_str(&mut out, " ");
        } else {
            push_str(&mut out, ".");
        }
        push_str(&mut out, "r: (");
        push_decimal_w(&mut out, result.length as u64, 2);
        push_str(&mut out, ") ");
        push_str(&mut out, signal_label_str(result.signum));
        push_str(&mut out, " ");
        push_decimal_w(&mut out, result.si_code as u64, 3);
        push_str(&mut out, " ");
        push_hex_zw(&mut out, result.fault_addr as u64, 8);
        push_str(&mut out, " ");
        let prefix = format_full_hex(result.instruction.executed_prefix(result.length as usize));
        push_str(&mut out, prefix.as_str());
        let all: &[u8] = result.instruction.bytes().as_slice();
        let n: usize = if result.length < 16 {
            result.length as usize
        } else {
            16
        };
        let tail = format_full_hex(&all[n..16]);
        assert(all@.subrange(n as int, 16) =~= result.instruction.spec_bytes().skip(n as int));
        push_str(&mut out, tail.as_str());
        push_str(&mut out, "\n");
        TextReport(out)
    }
}

} // verus!
