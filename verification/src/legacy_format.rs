//! The legacy text logs: a `#` header, then one line per artifact; and the
//! one-line tick file.
use vstd::prelude::*;

use crate::cpu::{self, CpuMetadata};
use crate::instruction::{self, parse_hex_instruction, InstructionBytes};
use crate::result::{DisasmResult, ExecutionResult};
use crate::text;
use crate::text_laws;
use crate::text::{
    chars_eq, chars_of, contains_char, copy_range, lines_of, parse_decimal,
    push_decimal, push_decimal_w, push_str, split_once_of, starts_with, string_of,
    trim_chars, words_of,
};

verus! {

broadcast use InstructionBytes::lemma_shape;

/// What a log header records.
#[derive(Clone, Debug, PartialEq, Eq)]
pub struct LegacyHeader {
    pub command_line: Option<String>,
    pub injector_command: Option<String>,
    pub insn_tested: Option<u64>,
    pub artifacts_found: Option<u64>,
    pub runtime: Option<String>,
    pub seed: Option<u64>,
    pub arch: Option<String>,
    pub date: Option<String>,
    pub cpu: CpuMetadata,
    pub extra_comments: Vec<String>,
}

/// One artifact line.
#[derive(Clone, Copy, Debug, PartialEq, Eq)]
pub struct LegacyArtifactRecord {
    pub result: ExecutionResult,
}

/// A whole log.
#[derive(Clone, Debug, PartialEq, Eq)]
pub struct LegacyLog {
    pub header: LegacyHeader,
    pub records: Vec<LegacyArtifactRecord>,
}

/// The tick file: the candidate last reached.
#[derive(Clone, Copy, Debug, PartialEq, Eq)]
pub struct LegacyTick(pub InstructionBytes);

#[derive(Clone, Debug, PartialEq, Eq)]
pub enum LegacyParseError {
    InvalidHeader(String),
    InvalidRecord(String),
}

/// A parse error: whether it is in the header, and its message.
pub open spec fn legacy_error_view(e: LegacyParseError) -> (bool, Seq<char>) {
    match e {
        LegacyParseError::InvalidHeader(m) => (true, m@),
        LegacyParseError::InvalidRecord(m) => (false, m@),
    }
}

impl LegacyParseError {
    /// The message of the error, as it is printed.
    pub fn message(&self) -> (r: String)
        ensures
            r@ == (if legacy_error_view(*self).0 {
                "invalid legacy header: "@
            } else {
                "invalid legacy record: "@
            }) + legacy_error_view(*self).1,
    {
        let mut out = String::new();
        match self {
            LegacyParseError::InvalidHeader(m) => {
                push_str(&mut out, "invalid legacy header: ");
                push_str(&mut out, m.as_str());
            },
            LegacyParseError::InvalidRecord(m) => {
                push_str(&mut out, "invalid legacy record: ");
                push_str(&mut out, m.as_str());
            },
        }
        out
    }
}

// ---------------------------------------------------------------------------
// Artifact lines
// ---------------------------------------------------------------------------

/// The line of a result: executed hex, valid, length, signal and code in
/// fields of two, then the 16 raw bytes in parentheses.
pub open spec fn record_line(r: ExecutionResult) -> Seq<char> {
    instruction::hex_pairs(r.executed_bytes()) + " "@ + text::decimal_w(r.valid as nat, 2) + " "@
        + text::decimal_w(r.length as nat, 2) + " "@ + text::decimal_w(r.signum as nat, 2) + " "@
        + text::decimal_w(r.si_code as nat, 2) + " ("@ + instruction::hex_pairs(
        r.instruction.spec_bytes(),
    ) + ")"@
}

/// What an artifact line gives: the raw bytes, the executed length and the
/// four numbers.
pub struct RecordFields {
    pub raw: Seq<u8>,
    pub executed_len: nat,
    pub valid: nat,
    pub length: nat,
    pub signum: nat,
    pub si_code: nat,
}

/// `r` is the record of `f`: disassembly unknown, fault address `u32::MAX`.
pub open spec fn record_matches(r: LegacyArtifactRecord, f: RecordFields) -> bool {
    &&& r.result.disasm.length == 0
    &&& !r.result.disasm.known
    &&& r.result.instruction.spec_bytes() == instruction::zero_extend(f.raw)
    &&& r.result.instruction.spec_len() == f.executed_len
    &&& r.result.valid as nat == f.valid
    &&& r.result.length as nat == f.length
    &&& r.result.signum as nat == f.signum
    &&& r.result.si_code as nat == f.si_code
    &&& r.result.fault_addr == u32::MAX
}

pub open spec fn u32_word(w: Seq<char>) -> Option<nat> {
    text::parse_unsigned(w, 0xffff_ffff)
}

/// The error of the numeric word `i` named `label`, if any.
pub open spec fn number_word_error(ws: Seq<Seq<char>>, i: int, label: Seq<char>) -> Option<Seq<char>> {
    if ws.len() <= i {
        Some("missing "@ + label + " field"@)
    } else if u32_word(ws[i]) is None {
        Some("invalid "@ + label + " value"@)
    } else {
        None
    }
}

/// The text between the parentheses of `w`, when it has them.
pub open spec fn parenthesized(w: Seq<char>) -> Option<Seq<char>> {
    if w.len() >= 2 && w[0] == '(' && w.last() == ')' {
        Some(w.subrange(1, w.len() - 1))
    } else {
        None
    }
}

/// What an artifact line gives, or the error message.
pub open spec fn spec_parse_record(line: Seq<char>) -> Result<RecordFields, Seq<char>> {
    let ws = text::words(line);
    if ws.len() < 1 {
        Err("missing instruction bytes"@)
    } else if number_word_error(ws, 1, "valid"@) is Some {
        Err(number_word_error(ws, 1, "valid"@)->0)
    } else if number_word_error(ws, 2, "length"@) is Some {
        Err(number_word_error(ws, 2, "length"@)->0)
    } else if number_word_error(ws, 3, "signum"@) is Some {
        Err(number_word_error(ws, 3, "signum"@)->0)
    } else if number_word_error(ws, 4, "si_code"@) is Some {
        Err(number_word_error(ws, 4, "si_code"@)->0)
    } else if ws.len() < 6 {
        Err("missing raw payload"@)
    } else if parenthesized(ws[5]) is None {
        Err("raw payload is not parenthesized"@)
    } else if instruction::spec_parse_hex(parenthesized(ws[5])->0) is Err {
        Err("invalid raw payload: "@ + instruction::spec_parse_hex(parenthesized(ws[5])->0)->Err_0)
    } else if instruction::spec_parse_hex(ws[0]) is Err {
        Err("invalid executed key: "@ + instruction::spec_parse_hex(ws[0])->Err_0)
    } else {
        Ok(
            RecordFields {
                raw: instruction::spec_parse_hex(parenthesized(ws[5])->0)->Ok_0,
                executed_len: instruction::spec_parse_hex(ws[0])->Ok_0.len(),
                valid: u32_word(ws[1])->0,
                length: u32_word(ws[2])->0,
                signum: u32_word(ws[3])->0,
                si_code: u32_word(ws[4])->0,
            },
        )
    }
}

fn record_error(parts: &[&str]) -> (r: LegacyParseError)
    ensures
        legacy_error_view(r) == (false, concat_strs(parts@)),
{
    let mut m = String::new();
    let mut i: usize = 0;
    while i < parts.len()
        invariant
            i <= parts.len(),
            m@ == concat_strs(parts@.take(i as int)),
        decreases parts.len() - i,
    {
        push_str(&mut m, parts[i]);
        assert(parts@.take(i + 1).drop_last() =~= parts@.take(i as int));
        i = i + 1;
    }
    assert(parts@.take(parts.len() as int) =~= parts@);
    LegacyParseError::InvalidRecord(m)
}

/// The strings of `parts`, one after the other.
pub open spec fn concat_strs(parts: Seq<&str>) -> Seq<char>
    decreases parts.len(),
{
    if parts.len() == 0 {
        Seq::empty()
    } else {
        concat_strs(parts.drop_last()) + parts.last()@
    }
}

/// Reads numeric word `i`, named `label`.
fn number_word(ws: &Vec<Vec<char>>, i: usize, label: &str) -> (r: Result<u32, LegacyParseError>)
    ensures
        match r {
            Ok(v) => number_word_error(ws.deep_view(), i as int, label@) is None && u32_word(
                ws.deep_view()[i as int],
            ) == Some(v as nat),
            Err(e) => number_word_error(ws.deep_view(), i as int, label@) == Some(
                legacy_error_view(e).1,
            ) && !legacy_error_view(e).0,
        },
{
    if i >= ws.len() {
        let e = record_error(&["missing ", label, " field"]);
        reveal_with_fuel(concat_strs, 4);
        return Err(e);
    }
    assert(ws.deep_view()[i as int] == ws@[i as int]@);
    match parse_decimal(ws[i].as_slice(), 0xffff_ffff) {
        Some(v) => Ok(v as u32),
        None => {
            let e = record_error(&["invalid ", label, " value"]);
            reveal_with_fuel(concat_strs, 4);
            Err(e)
        },
    }
}

impl LegacyArtifactRecord {
    /// The artifact line of the result.
    pub fn to_legacy_line(&self) -> (r: String)
        ensures
            r@ == record_line(self.result),
    {
        let r = &self.result;
        let mut out = r.executed_key_hex();
        push_str(&mut out, " ");
        push_decimal_w(&mut out, r.valid as u64, 2);
        push_str(&mut out, " ");
        push_decimal_w(&mut out, r.length as u64, 2);
        push_str(&mut out, " ");
        push_decimal_w(&mut out, r.signum as u64, 2);
        push_str(&mut out, " ");
        push_decimal_w(&mut out, r.si_code as u64, 2);
        push_str(&mut out, " (");
        let raw = r.raw_payload_hex();
        push_str(&mut out, raw.as_str());
        push_str(&mut out, ")");
        out
    }

    /// Reads an artifact line: whitespace-separated words, the sixth the raw
    /// bytes in parentheses; further words are ignored.
    pub fn parse(line: &str) -> (r: Result<Self, LegacyParseError>)
        ensures
            match r {
                Ok(rec) => spec_parse_record(line@) is Ok && record_matches(
                    rec,
                    spec_parse_record(line@)->Ok_0,
                ),
                Err(e) => spec_parse_record(line@) == Err::<RecordFields, Seq<char>>(
                    legacy_error_view(e).1,
                ) && !legacy_error_view(e).0,
            },
    {
        let chars = chars_of(line);
        let ws = words_of(chars.as_slice());
        let ghost wv = ws.deep_view();
        if ws.len() < 1 {
            return Err(LegacyParseError::InvalidRecord(String::from_str("missing instruction bytes")));
        }
        let valid = match number_word(&ws, 1, "valid") {
            Ok(v) => v,
            Err(e) => return Err(e),
        };
        let length = match number_word(&ws, 2, "length") {
            Ok(v) => v,
            Err(e) => return Err(e),
        };
        let signum = match number_word(&ws, 3, "signum") {
            Ok(v) => v,
            Err(e) => return Err(e),
        };
        let si_code = match number_word(&ws, 4, "si_code") {
            Ok(v) => v,
            Err(e) => return Err(e),
        };
        if ws.len() < 6 {
            return Err(LegacyParseError::InvalidRecord(String::from_str("missing raw payload")));
        }
        let raw_word = ws[5].as_slice();
        assert(raw_word@ == wv[5]);
        let n = raw_word.len();
        if !(n >= 2 && raw_word[0] == '(' && raw_word[n - 1] == ')') {
            return Err(
                LegacyParseError::InvalidRecord(String::from_str("raw payload is not parenthesized")),
            );
        }
        let inner = string_of(copy_range(raw_word, 1, n - 1).as_slice());
        let raw_instruction = match parse_hex_instruction(inner.as_str()) {
            Ok(ib) => ib,
            Err(msg) => {
                let mut m = String::new();
                push_str(&mut m, "invalid raw payload: ");
                push_str(&mut m, msg.as_str());
                return Err(LegacyParseError::InvalidRecord(m));
            },
        };
        let key = string_of(ws[0].as_slice());
        assert(ws@[0]@ == wv[0]);
        let executed = match parse_hex_instruction(key.as_str()) {
            Ok(ib) => ib,
            Err(msg) => {
                let mut m = String::new();
                push_str(&mut m, "invalid executed key: ");
                push_str(&mut m, msg.as_str());
                return Err(LegacyParseError::InvalidRecord(m));
            },
        };
        let mut instruction = raw_instruction;
        instruction.set_specified_len(executed.specified_len());
        Ok(
            LegacyArtifactRecord {
                result: ExecutionResult {
                    disasm: DisasmResult { length: 0, known: false },
                    instruction,
                    valid,
                    length,
                    signum,
                    si_code,
                    fault_addr: u32::MAX,
                },
            },
        )
    }
}

impl std::str::FromStr for LegacyArtifactRecord {
    type Err = LegacyParseError;

    /// `LegacyArtifactRecord::parse`.
    fn from_str(line: &str) -> (r: Result<Self, LegacyParseError>)
        ensures
            match r {
                Ok(rec) => spec_parse_record(line@) is Ok && record_matches(
                    rec,
                    spec_parse_record(line@)->Ok_0,
                ),
                Err(e) => spec_parse_record(line@) == Err::<RecordFields, Seq<char>>(
                    legacy_error_view(e).1,
                ) && !legacy_error_view(e).0,
            },
    {
        LegacyArtifactRecord::parse(line)
    }
}

// ---------------------------------------------------------------------------
// Tick
// ---------------------------------------------------------------------------

impl LegacyTick {
    /// Reads the tick file: hex digit pairs, surrounding whitespace ignored.
    pub fn parse(input: &str) -> (r: Result<Self, LegacyParseError>)
        ensures
            match r {
                Ok(t) => instruction::spec_parse_hex(input@) is Ok && t.0.spec_bytes()
                    == instruction::zero_extend(instruction::spec_parse_hex(input@)->Ok_0)
                    && t.0.spec_len() == instruction::spec_parse_hex(input@)->Ok_0.len(),
                Err(e) => instruction::spec_parse_hex(input@) is Err && legacy_error_view(e) == (
                    false,
                    "invalid tick hex: "@ + instruction::spec_parse_hex(input@)->Err_0,
                ),
            },
    {
        match parse_hex_instruction(input) {
            Ok(ib) => Ok(LegacyTick(ib)),
            Err(msg) => {
                let mut m = String::new();
                push_str(&mut m, "invalid tick hex: ");
                push_str(&mut m, msg.as_str());
                Err(LegacyParseError::InvalidRecord(m))
            },
        }
    }

    /// Hex of the specified bytes.
    pub fn to_text(&self) -> (r: String)
        ensures
            r@ == instruction::hex_pairs(self.0.spec_specified()),
    {
        self.0.compact_hex()
    }
}

/// Reading the tick file written for a tick gives back its specified bytes.
pub proof fn lemma_tick_round_trip(t: LegacyTick)
    ensures
        instruction::spec_parse_hex(instruction::hex_pairs(t.0.spec_specified()))
            == Ok::<Seq<u8>, Seq<char>>(t.0.spec_specified()),
{
    instruction::lemma_hex_round_trip(t.0.spec_specified());
}

/// The words of `sp + p + t` are those of `p`, then those of `t`, when `sp`
/// is one space and `t` starts with one.
proof fn lemma_words_field(p: Seq<char>, t: Seq<char>)
    requires
        t.len() > 0,
        t[0] == ' ',
    ensures
        text::words(seq![' '] + p + t) == text::words(p) + text::words(t),
{
    assert(seq![' '] + p + t =~= seq![' '] + (p + t));
    text_laws::lemma_words_skip_ws(seq![' '], p + t);
    text_laws::lemma_words_split(p, t);
}

/// An artifact line written for a result with at least one executed byte
/// reads back as its raw bytes, its executed length (at most 16) and its
/// four numbers.
#[verifier::spinoff_prover]
#[verifier::rlimit(40)]
pub proof fn lemma_record_round_trip(r: ExecutionResult)
    requires
        r.length >= 1,
    ensures
        spec_parse_record(record_line(r)) == Ok::<RecordFields, Seq<char>>(
            RecordFields {
                raw: r.instruction.spec_bytes(),
                executed_len: instruction::clamp16(r.length as nat),
                valid: r.valid as nat,
                length: r.length as nat,
                signum: r.signum as nat,
                si_code: r.si_code as nat,
            },
        ),
{
    reveal_strlit(" ");
    reveal_strlit(" (");
    reveal_strlit(")");
    let sp = seq![' '];
    let exec = r.executed_bytes();
    let bytes = r.instruction.spec_bytes();
    let h = instruction::hex_pairs(exec);
    let pv = text::decimal_w(r.valid as nat, 2);
    let pl = text::decimal_w(r.length as nat, 2);
    let ps = text::decimal_w(r.signum as nat, 2);
    let pc = text::decimal_w(r.si_code as nat, 2);
    let raw = instruction::hex_pairs(bytes);
    let last = seq!['('] + raw + seq![')'];
    let t5 = sp + last;
    let t4 = sp + pc + t5;
    let t3 = sp + ps + t4;
    let t2 = sp + pl + t3;
    let t1 = sp + pv + t2;
    assert(record_line(r) =~= h + t1);
    // the six words
    instruction::lemma_hex_pairs_shape(exec);
    instruction::lemma_hex_pairs_shape(bytes);
    assert(exec.len() >= 1);
    assert forall|i: int| 0 <= i < h.len() implies !text::is_ws(h[i]) by {
        instruction::lemma_hex_pair_char_plain(exec, i);
    }
    text_laws::lemma_single_word(h);
    assert forall|i: int| 0 <= i < last.len() implies !text::is_ws(last[i]) by {
        if 1 <= i < last.len() - 1 {
            assert(last[i] == raw[i - 1]);
            instruction::lemma_hex_pair_char_plain(bytes, i - 1);
        }
    }
    text_laws::lemma_single_word(last);
    text_laws::lemma_words_skip_ws(sp, last);
    lemma_words_field(pc, t5);
    lemma_words_field(ps, t4);
    lemma_words_field(pl, t3);
    lemma_words_field(pv, t2);
    text_laws::lemma_words_split(h, t1);
    text_laws::lemma_words_decimal_w(r.valid as nat, 2);
    text_laws::lemma_words_decimal_w(r.length as nat, 2);
    text_laws::lemma_words_decimal_w(r.signum as nat, 2);
    text_laws::lemma_words_decimal_w(r.si_code as nat, 2);
    let ws = text::words(record_line(r));
    assert(ws =~= seq![
        h,
        text::decimal(r.valid as nat),
        text::decimal(r.length as nat),
        text::decimal(r.signum as nat),
        text::decimal(r.si_code as nat),
        last,
    ]);
    // the values
    text_laws::lemma_parse_decimal_of(r.valid as nat, 0xffff_ffff);
    text_laws::lemma_parse_decimal_of(r.length as nat, 0xffff_ffff);
    text_laws::lemma_parse_decimal_of(r.signum as nat, 0xffff_ffff);
    text_laws::lemma_parse_decimal_of(r.si_code as nat, 0xffff_ffff);
    assert(last.subrange(1, last.len() - 1) =~= raw);
    instruction::lemma_hex_round_trip(bytes);
    instruction::lemma_hex_round_trip(exec);
}

// ---------------------------------------------------------------------------
// Whole logs
// ---------------------------------------------------------------------------

/// What a header records, strings by their characters.
pub struct HeaderModel {
    pub command_line: Option<Seq<char>>,
    pub injector_command: Option<Seq<char>>,
    pub insn_tested: Option<nat>,
    pub artifacts_found: Option<nat>,
    pub runtime: Option<Seq<char>>,
    pub seed: Option<nat>,
    pub arch: Option<Seq<char>>,
    pub date: Option<Seq<char>>,
    pub cpu_lines: Seq<Seq<char>>,
    pub extra_comments: Seq<Seq<char>>,
}

/// What a log records: its header and the fields of its artifact lines.
pub struct LogModel {
    pub header: HeaderModel,
    pub records: Seq<RecordFields>,
}

pub open spec fn empty_header() -> HeaderModel {
    HeaderModel {
        command_line: None,
        injector_command: None,
        insn_tested: None,
        artifacts_found: None,
        runtime: None,
        seed: None,
        arch: None,
        date: None,
        cpu_lines: Seq::empty(),
        extra_comments: Seq::empty(),
    }
}

pub open spec fn opt_nat(o: Option<u64>) -> Option<nat> {
    match o {
        Some(v) => Some(v as nat),
        None => None,
    }
}

/// The value `arch` gives the processor's word size: `arch` read as a `u32`.
pub open spec fn arch_bits(arch: Option<Seq<char>>) -> Option<u32> {
    match arch {
        Some(a) => match text::parse_unsigned(a, 0xffff_ffff) {
            Some(v) => Some(v as u32),
            None => None,
        },
        None => None,
    }
}

/// `h` holds what `m` records, but for the processor's word size.
pub open spec fn header_fields_match(h: LegacyHeader, m: HeaderModel) -> bool {
    &&& text::opt_view(h.command_line) == m.command_line
    &&& text::opt_view(h.injector_command) == m.injector_command
    &&& opt_nat(h.insn_tested) == m.insn_tested
    &&& opt_nat(h.artifacts_found) == m.artifacts_found
    &&& text::opt_view(h.runtime) == m.runtime
    &&& opt_nat(h.seed) == m.seed
    &&& text::opt_view(h.arch) == m.arch
    &&& text::opt_view(h.date) == m.date
    &&& text::views(h.cpu.raw_lines@) == m.cpu_lines
    &&& cpu::cpu_fields_from(h.cpu, m.cpu_lines)
    &&& text::views(h.extra_comments@) == m.extra_comments
}

/// `h` holds what `m` records.
pub open spec fn header_matches(h: LegacyHeader, m: HeaderModel) -> bool {
    &&& header_fields_match(h, m)
    &&& h.cpu.architecture_bits == arch_bits(m.arch)
}

/// `log` holds what `m` records.
pub open spec fn log_matches(log: LegacyLog, m: LogModel) -> bool {
    &&& header_matches(log.header, m.header)
    &&& log.records@.len() == m.records.len()
    &&& forall|i: int| 0 <= i < m.records.len() ==> record_matches(log.records@[i], #[trigger] m.records[i])
}

/// What a header comment (a line after its `# `) makes of `h`: a known
/// `key: value` sets its field, an unknown one is kept as an extra comment;
/// without a colon the first two are the command lines, the rest extra.
pub open spec fn header_comment(c: Seq<char>, h: HeaderModel) -> Result<HeaderModel, Seq<char>> {
    match text::key_value(c) {
        Some((key, value)) => if key == "insn tested"@ {
            match text::parse_unsigned(value, u64::MAX as nat) {
                Some(n) => Ok(HeaderModel { insn_tested: Some(n), ..h }),
                None => Err("invalid insn tested"@),
            }
        } else if key == "artf found"@ {
            match text::parse_unsigned(value, u64::MAX as nat) {
                Some(n) => Ok(HeaderModel { artifacts_found: Some(n), ..h }),
                None => Err("invalid artf found"@),
            }
        } else if key == "runtime"@ {
            Ok(HeaderModel { runtime: Some(value), ..h })
        } else if key == "seed"@ {
            match text::parse_unsigned(value, u64::MAX as nat) {
                Some(n) => Ok(HeaderModel { seed: Some(n), ..h }),
                None => Err("invalid seed"@),
            }
        } else if key == "arch"@ {
            Ok(HeaderModel { arch: Some(value), ..h })
        } else if key == "date"@ {
            Ok(HeaderModel { date: Some(value), ..h })
        } else {
            Ok(HeaderModel { extra_comments: h.extra_comments.push(c), ..h })
        },
        None => if h.command_line is None {
            Ok(HeaderModel { command_line: Some(c), ..h })
        } else if h.injector_command is None {
            Ok(HeaderModel { injector_command: Some(c), ..h })
        } else {
            Ok(HeaderModel { extra_comments: h.extra_comments.push(c), ..h })
        },
    }
}

/// `line` starts with `# `.
pub open spec fn is_comment(line: Seq<char>) -> bool {
    line.len() >= 2 && line.take(2) == "# "@
}

/// What the lines from `i` on make of `m`; `in_cpu` tells whether the last
/// header comment opened or continued the cpu block. The error says
/// whether it is in the header, and its message.
pub open spec fn parse_log_lines(ls: Seq<Seq<char>>, i: nat, m: LogModel, in_cpu: bool) -> Result<
    LogModel,
    (bool, Seq<char>),
>
    decreases ls.len() - i,
{
    if i >= ls.len() {
        Ok(m)
    } else {
        let line = ls[i as int];
        if is_comment(line) {
            let c = line.skip(2);
            if c == "cpu:"@ {
                parse_log_lines(ls, i + 1, m, true)
            } else if in_cpu && c.contains('\t') {
                parse_log_lines(
                    ls,
                    i + 1,
                    LogModel {
                        header: HeaderModel { cpu_lines: m.header.cpu_lines.push(c), ..m.header },
                        ..m
                    },
                    true,
                )
            } else {
                match header_comment(c, m.header) {
                    Ok(h) => parse_log_lines(ls, i + 1, LogModel { header: h, ..m }, false),
                    Err(e) => Err((true, e)),
                }
            }
        } else if (line.len() > 0 && line[0] == '#') || text::trim(line).len() == 0 {
            parse_log_lines(ls, i + 1, m, in_cpu)
        } else {
            match spec_parse_record(line) {
                Ok(f) => parse_log_lines(
                    ls,
                    i + 1,
                    LogModel { records: m.records.push(f), ..m },
                    in_cpu,
                ),
                Err(e) => Err((false, e)),
            }
        }
    }
}

/// What `LegacyLog::parse` makes of `input`.
pub open spec fn spec_parse_log(input: Seq<char>) -> Result<LogModel, (bool, Seq<char>)> {
    parse_log_lines(text::lines(input), 0, LogModel { header: empty_header(), records: Seq::empty() }, false)
}

impl LegacyHeader {
    fn empty() -> (r: Self)
        ensures
            header_matches(r, empty_header()),
    {
        let r = LegacyHeader {
            command_line: None,
            injector_command: None,
            insn_tested: None,
            artifacts_found: None,
            runtime: None,
            seed: None,
            arch: None,
            date: None,
            cpu: CpuMetadata::default(),
            extra_comments: Vec::new(),
        };
        assert(text::views(r.extra_comments@) =~= Seq::<Seq<char>>::empty());
        assert(text::views(r.cpu.raw_lines@) =~= Seq::<Seq<char>>::empty());
        r
    }

    /// Applies a header comment.
    fn apply_comment(&mut self, c: &[char], Ghost(m): Ghost<HeaderModel>) -> (r: Result<(), LegacyParseError>)
        requires
            header_fields_match(*old(self), m),
        ensures
            final(self).cpu.architecture_bits == old(self).cpu.architecture_bits,
            match r {
                Ok(()) => header_comment(c@, m) is Ok && header_fields_match(
                    *final(self),
                    header_comment(c@, m)->Ok_0,
                ),
                Err(e) => header_comment(c@, m) == Err::<HeaderModel, Seq<char>>(
                    legacy_error_view(e).1,
                ) && legacy_error_view(e).0,
            },
    {
        match split_once_of(c, ':') {
            Some((k, v)) => {
                let key = trim_chars(k.as_slice());
                let value = trim_chars(v.as_slice());
                let kk = key.as_slice();
                if chars_eq(kk, "insn tested") {
                    match parse_decimal(value.as_slice(), u64::MAX) {
                        Some(n) => self.insn_tested = Some(n),
                        None => {
                            return Err(
                                LegacyParseError::InvalidHeader(String::from_str("invalid insn tested")),
                            )
                        },
                    }
                } else if chars_eq(kk, "artf found") {
                    match parse_decimal(value.as_slice(), u64::MAX) {
                        Some(n) => self.artifacts_found = Some(n),
                        None => {
                            return Err(
                                LegacyParseError::InvalidHeader(String::from_str("invalid artf found")),
                            )
                        },
                    }
                } else if chars_eq(kk, "runtime") {
                    self.runtime = Some(string_of(value.as_slice()));
                } else if chars_eq(kk, "seed") {
                    match parse_decimal(value.as_slice(), u64::MAX) {
                        Some(n) => self.seed = Some(n),
                        None => {
                            return Err(
                                LegacyParseError::InvalidHeader(String::from_str("invalid seed")),
                            )
                        },
                    }
                } else if chars_eq(kk, "arch") {
                    self.arch = Some(string_of(value.as_slice()));
                } else if chars_eq(kk, "date") {
                    self.date = Some(string_of(value.as_slice()));
                } else {
                    self.extra_comments.push(string_of(c));
                    assert(text::views(self.extra_comments@) =~= m.extra_comments.push(c@));
                }
            },
            None => {
                if self.command_line.is_none() {
                    self.command_line = Some(string_of(c));
                } else if self.injector_command.is_none() {
                    self.injector_command = Some(string_of(c));
                } else {
                    self.extra_comments.push(string_of(c));
                    assert(text::views(self.extra_comments@) =~= m.extra_comments.push(c@));
                }
            },
        }
        Ok(())
    }
}

impl LegacyLog {
    /// Reads a log: `# ` comments make the header (the lines after `# cpu:`
    /// that hold a tab are the processor block), other `#` and blank lines
    /// are skipped, every other line is an artifact line.
    pub fn parse(input: &str) -> (r: Result<Self, LegacyParseError>)
        ensures
            match r {
                Ok(log) => spec_parse_log(input@) is Ok && log_matches(
                    log,
                    spec_parse_log(input@)->Ok_0,
                ),
                Err(e) => spec_parse_log(input@) == Err::<LogModel, (bool, Seq<char>)>(
                    legacy_error_view(e),
                ),
            },
    {
        let chars = chars_of(input);
        let ls = lines_of(chars.as_slice());
        let ghost lv = ls.deep_view();
        let mut header = LegacyHeader::empty();
        let mut records: Vec<LegacyArtifactRecord> = Vec::new();
        let mut in_cpu = false;
        let ghost mut m = LogModel { header: empty_header(), records: Seq::empty() };
        let mut i: usize = 0;
        while i < ls.len()
            invariant
                i <= ls.len(),
                lv == ls.deep_view(),
                lv == text::lines(input@),
                spec_parse_log(input@) == parse_log_lines(lv, i as nat, m, in_cpu),
                header_fields_match(header, m.header),
                header.cpu.architecture_bits is None,
                records@.len() == m.records.len(),
                forall|j: int|
                    0 <= j < m.records.len() ==> record_matches(records@[j], #[trigger] m.records[j]),
            decreases ls.len() - i,
        {
            let line = ls[i].as_slice();
            assert(line@ == lv[i as int]);
            proof {
                reveal_strlit("# ");
            }
            if starts_with(line, "# ") {
                let c = copy_range(line, 2, line.len());
                assert(c@ =~= line@.skip(2));
                if chars_eq(c.as_slice(), "cpu:") {
                    in_cpu = true;
                } else if in_cpu && contains_char(c.as_slice(), '\t') {
                    header.cpu.raw_lines.push(string_of(c.as_slice()));
                    header.cpu.apply_line(c.as_slice());
                    proof {
                        let old_lines = m.header.cpu_lines;
                        m = LogModel {
                            header: HeaderModel { cpu_lines: m.header.cpu_lines.push(c@), ..m.header },
                            ..m
                        };
                        assert(m.header.cpu_lines.drop_last() =~= old_lines);
                        assert(text::views(header.cpu.raw_lines@) =~= m.header.cpu_lines);
                    }
                } else {
                    in_cpu = false;
                    match header.apply_comment(c.as_slice(), Ghost(m.header)) {
                        Ok(()) => {
                            proof {
                                m = LogModel { header: header_comment(c@, m.header)->Ok_0, ..m };
                            }
                        },
                        Err(e) => return Err(e),
                    }
                }
            } else if (line.len() > 0 && line[0] == '#') || trim_chars(line).len() == 0 {
            } else {
                let text_line = string_of(line);
                match LegacyArtifactRecord::parse(text_line.as_str()) {
                    Ok(rec) => {
                        records.push(rec);
                        proof {
                            m = LogModel { records: m.records.push(spec_parse_record(line@)->Ok_0), ..m };
                        }
                    },
                    Err(e) => return Err(e),
                }
            }
            i = i + 1;
        }
        let bits = match &header.arch {
            Some(a) => {
                let av = chars_of(a.as_str());
                match parse_decimal(av.as_slice(), 0xffff_ffff) {
                    Some(v) => Some(v as u32),
                    None => None,
                }
            },
            None => None,
        };
        header.cpu.architecture_bits = bits;
        Ok(LegacyLog { header, records })
    }
}

/// `# s` on a line of its own.
pub open spec fn comment_line(s: Seq<char>) -> Seq<char> {
    "# "@ + s + "\n"@
}

pub open spec fn opt_comment(o: Option<Seq<char>>) -> Seq<char> {
    match o {
        Some(s) => comment_line(s),
        None => Seq::empty(),
    }
}

/// `# key: value` on a line of its own, or nothing.
pub open spec fn kv_text(key: Seq<char>, o: Option<Seq<char>>) -> Seq<char> {
    match o {
        Some(v) => "# "@ + key + ": "@ + v + "\n"@,
        None => Seq::empty(),
    }
}

pub open spec fn opt_decimal(o: Option<u64>) -> Option<Seq<char>> {
    match o {
        Some(v) => Some(text::decimal(v as nat)),
        None => None,
    }
}

/// Each of `ls` as a comment line.
pub open spec fn comment_lines(ls: Seq<Seq<char>>) -> Seq<char>
    decreases ls.len(),
{
    if ls.len() == 0 {
        Seq::empty()
    } else {
        comment_lines(ls.drop_last()) + comment_line(ls.last())
    }
}

/// Each record's artifact line.
pub open spec fn record_lines(rs: Seq<LegacyArtifactRecord>) -> Seq<char>
    decreases rs.len(),
{
    if rs.len() == 0 {
        Seq::empty()
    } else {
        record_lines(rs.drop_last()) + record_line(rs.last().result) + "\n"@
    }
}

/// The text of a log: the header (command lines, counts, runtime, seed,
/// arch, date, the processor block, the column line), then the records.
pub open spec fn log_text(log: LegacyLog) -> Seq<char> {
    let h = log.header;
    "#\n"@ + opt_comment(text::opt_view(h.command_line)) + opt_comment(
        text::opt_view(h.injector_command),
    ) + "#\n"@ + kv_text("insn tested"@, opt_decimal(h.insn_tested)) + kv_text(
        "artf found"@,
        opt_decimal(h.artifacts_found),
    ) + kv_text("runtime"@, text::opt_view(h.runtime)) + kv_text("seed"@, opt_decimal(h.seed))
        + kv_text("arch"@, text::opt_view(h.arch)) + kv_text("date"@, text::opt_view(h.date))
        + "#\n# cpu:\n"@ + comment_lines(text::views(h.cpu.raw_lines@))
        + "#                              v  l  s  c\n"@ + record_lines(log.records@)
}

fn emit_comment(out: &mut String, o: &Option<String>)
    ensures
        final(out)@ == old(out)@ + opt_comment(text::opt_view(*o)),
{
    if let Some(s) = o {
        push_str(out, "# ");
        push_str(out, s.as_str());
        push_str(out, "\n");
    }
}

fn emit_kv(out: &mut String, key: &str, value: Option<u64>)
    ensures
        final(out)@ == old(out)@ + kv_text(key@, opt_decimal(value)),
{
    if let Some(v) = value {
        push_str(out, "# ");
        push_str(out, key);
        push_str(out, ": ");
        push_decimal(out, v);
        push_str(out, "\n");
    }
}

fn emit_kv_str(out: &mut String, key: &str, value: &Option<String>)
    ensures
        final(out)@ == old(out)@ + kv_text(key@, text::opt_view(*value)),
{
    if let Some(v) = value {
        push_str(out, "# ");
        push_str(out, key);
        push_str(out, ": ");
        push_str(out, v.as_str());
        push_str(out, "\n");
    }
}

impl LegacyLog {
    /// The text of the log.
    pub fn to_text(&self) -> (r: String)
        ensures
            r@ == log_text(*self),
    {
        let h = &self.header;
        let mut out = String::new();
        push_str(&mut out, "#\n");
        emit_comment(&mut out, &h.command_line);
        emit_comment(&mut out, &h.injector_command);
        push_str(&mut out, "#\n");
        emit_kv(&mut out, "insn tested", h.insn_tested);
        emit_kv(&mut out, "artf found", h.artifacts_found);
        emit_kv_str(&mut out, "runtime", &h.runtime);
        emit_kv(&mut out, "seed", h.seed);
        emit_kv_str(&mut out, "arch", &h.arch);
        emit_kv_str(&mut out, "date", &h.date);
        push_str(&mut out, "#\n# cpu:\n");
        let ghost before_cpu = out@;
        let ghost cl = text::views(h.cpu.raw_lines@);
        let mut i: usize = 0;
        while i < h.cpu.raw_lines.len()
            invariant
                i <= h.cpu.raw_lines.len(),
                cl == text::views(h.cpu.raw_lines@),
                out@ == before_cpu + comment_lines(cl.take(i as int)),
            decreases h.cpu.raw_lines.len() - i,
        {
            push_str(&mut out, "# ");
            push_str(&mut out, h.cpu.raw_lines[i].as_str());
            push_str(&mut out, "\n");
            assert(cl.take(i + 1).drop_last() =~= cl.take(i as int));
            i = i + 1;
        }
        assert(cl.take(cl.len() as int) =~= cl);
        push_str(&mut out, "#                              v  l  s  c\n");
        let ghost before_records = out@;
        let mut j: usize = 0;
        while j < self.records.len()
            invariant
                j <= self.records.len(),
                out@ == before_records + record_lines(self.records@.take(j as int)),
            decreases self.records.len() - j,
        {
            let line = self.records[j].to_legacy_line();
            push_str(&mut out, line.as_str());
            push_str(&mut out, "\n");
            assert(self.records@.take(j + 1).drop_last() =~= self.records@.take(j as int));
            j = j + 1;
        }
        assert(self.records@.take(self.records.len() as int) =~= self.records@);
        out
    }
}

} // verus!
