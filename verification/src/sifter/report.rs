//! What the frontend shows and writes: the live screen, the findings table,
//! the summary and the final log.
use vstd::prelude::*;

use crate::cpu::CpuMetadata;
use crate::injector::policy;
use crate::instruction::{self, format_full_hex, InstructionBytes};
use crate::legacy_format::{LegacyArtifactRecord, LegacyHeader, LegacyLog};
use crate::result::ExecutionResult;
use crate::sifter::stats::{self, ScanStats, ARTIFACT_LOG_LEN, INSTRUCTION_LOG_LEN};
use crate::target::{self, TargetSpec};
use crate::text;
use crate::text_laws;
use crate::text::{
    chars_less, chars_of, push_chars, push_decimal, push_decimal_lw, push_decimal_w, push_decimal_zw, push_hex_zw, push_str,
    push_str_right, string_push,
};
use std::collections::VecDeque;

verus! {

broadcast use InstructionBytes::lemma_shape;

// ---------------------------------------------------------------------------
// Numbers and rows
// ---------------------------------------------------------------------------

/// `n` with its digits in groups of three separated by commas.
pub open spec fn comma_text(n: nat) -> Seq<char>
    decreases n,
{
    if n < 1000 {
        text::decimal(n)
    } else {
        comma_text(n / 1000) + seq![','] + text::decimal_zw(n % 1000, 3)
    }
}

/// `value` with its digits in groups of three separated by commas.
pub fn comma(value: u64) -> (r: String)
    ensures
        r@ == comma_text(value as nat),
{
    let mut out = String::new();
    push_comma(&mut out, value);
    out
}

fn push_comma(out: &mut String, value: u64)
    ensures
        final(out)@ == old(out)@ + comma_text(value as nat),
    decreases value,
{
    if value < 1000 {
        push_decimal(out, value);
    } else {
        let ghost start = out@;
        push_comma(out, value / 1000);
        string_push(out, ',');
        push_decimal_zw(out, value % 1000, 3);
        assert(out@ =~= start + comma_text(value as nat));
    }
}

/// A prefix byte, REX bytes included.
pub open spec fn spec_is_prefix(byte: u8) -> bool {
    policy::spec_is_prefix(byte, true)
}

pub fn is_prefix(byte: u8) -> (r: bool)
    ensures
        r == spec_is_prefix(byte),
{
    policy::is_prefix(byte, true)
}

/// The first byte that is not a prefix.
pub open spec fn first_opcode(b: Seq<u8>) -> Option<u8>
    decreases b.len(),
{
    if b.len() == 0 {
        None
    } else if !spec_is_prefix(b[0]) {
        Some(b[0])
    } else {
        first_opcode(b.drop_first())
    }
}

/// Two hex digits of `b`, or `none`.
pub open spec fn byte_label(o: Option<u8>) -> Seq<char> {
    match o {
        Some(b) => instruction::hex_pairs(seq![b]),
        None => "none"@,
    }
}

fn byte_label_string(o: Option<u8>) -> (r: String)
    ensures
        r@ == byte_label(o),
{
    match o {
        Some(b) => {
            let one = [b];
            let r = format_full_hex(one.as_slice());
            assert(one@ =~= seq![b]);
            r
        },
        None => String::from_str("none"),
    }
}

/// The first byte that is not a prefix, in hex, or `none`.
pub fn first_opcode_byte(bytes: &[u8]) -> (r: String)
    ensures
        r@ == byte_label(first_opcode(bytes@)),
{
    let mut i: usize = 0;
    assert(bytes@.skip(0) =~= bytes@);
    while i < bytes.len() && is_prefix(bytes[i])
        invariant
            i <= bytes.len(),
            first_opcode(bytes@) == first_opcode(bytes@.skip(i as int)),
        decreases bytes.len() - i,
    {
        assert(bytes@.skip(i as int).drop_first() =~= bytes@.skip(i + 1));
        i = i + 1;
    }
    if i < bytes.len() {
        byte_label_string(Some(bytes[i]))
    } else {
        assert(bytes@.skip(i as int).len() == 0);
        byte_label_string(None)
    }
}

/// The first byte when it is a prefix, in hex, or `none`.
pub fn first_prefix_byte(bytes: &[u8]) -> (r: String)
    ensures
        r@ == byte_label(
            if bytes@.len() > 0 && spec_is_prefix(bytes@[0]) {
                Some(bytes@[0])
            } else {
                None
            },
        ),
{
    if bytes.len() > 0 && is_prefix(bytes[0]) {
        byte_label_string(Some(bytes[0]))
    } else {
        byte_label_string(None)
    }
}

pub open spec fn bit01(b: bool) -> nat {
    if b {
        1
    } else {
        0
    }
}

/// A row of the live screen: valid, length, signal, code, disassembled
/// length and known in aligned columns, then the 16 raw bytes.
pub open spec fn row_text(r: ExecutionResult) -> Seq<char> {
    text::decimal_w(r.valid as nat, 3) + " "@ + text::decimal_w(r.length as nat, 2) + " "@
        + text::decimal_w(r.signum as nat, 2) + " "@ + text::decimal_w(r.si_code as nat, 2) + " "@
        + text::decimal_w(r.disasm.length as nat, 4) + " "@ + text::decimal_w(bit01(r.disasm.known), 5)
        + "  "@ + instruction::hex_pairs(r.instruction.spec_bytes())
}

pub fn format_result_row(result: &ExecutionResult) -> (r: String)
    ensures
        r@ == row_text(*result),
{
    let mut out = String::new();
    push_decimal_w(&mut out, result.valid as u64, 3);
    push_str(&mut out, " ");
    push_decimal_w(&mut out, result.length as u64, 2);
    push_str(&mut out, " ");
    push_decimal_w(&mut out, result.signum as u64, 2);
    push_str(&mut out, " ");
    push_decimal_w(&mut out, result.si_code as u64, 2);
    push_str(&mut out, " ");
    push_decimal_w(&mut out, result.disasm.length as u64, 4);
    push_str(&mut out, " ");
    push_decimal_w(
        &mut out,
        if result.disasm.known {
            1
        } else {
            0
        },
        5,
    );
    push_str(&mut out, "  ");
    let hex = result_hex(result);
    push_str(&mut out, hex.as_str());
    out
}

/// Hex of all 16 raw bytes.
pub fn result_hex(result: &ExecutionResult) -> (r: String)
    ensures
        r@ == instruction::hex_pairs(result.instruction.spec_bytes()),
{
    format_full_hex(result.instruction.bytes().as_slice())
}

// ---------------------------------------------------------------------------
// Live screen
// ---------------------------------------------------------------------------

/// Up to `n` rows of `s`, newest first, each on a line of its own.
pub open spec fn newest_rows(s: Seq<ExecutionResult>, n: nat) -> Seq<char>
    decreases s.len(),
{
    if s.len() == 0 || n == 0 {
        Seq::empty()
    } else {
        row_text(s.last()) + "\n"@ + newest_rows(s.drop_last(), (n - 1) as nat)
    }
}

/// The current-result line.
pub open spec fn current_text(last: Option<ExecutionResult>) -> Seq<char> {
    match last {
        Some(r) => "current: v="@ + text::decimal_lw(r.valid as nat, 2) + " len="@
            + text::decimal_lw(r.length as nat, 2) + " sig="@ + text::decimal_lw(r.signum as nat, 2)
            + " code="@ + text::decimal_lw(r.si_code as nat, 3) + " addr="@ + text::hex_zw(
            r.fault_addr as nat,
            8,
        ) + " disas_len="@ + text::decimal(r.disasm.length as nat) + " known="@ + text::decimal(
            bit01(r.disasm.known),
        ) + " "@ + instruction::hex_pairs(r.instruction.spec_bytes()) + "\n"@,
        None => "current: waiting for injector results...\n"@,
    }
}

/// The live screen: counters, the current result, the recent results and
/// the recent findings, newest first.
pub open spec fn screen_text(s: ScanStats, rate: u64, elapsed: Seq<char>) -> Seq<char> {
    "\u{1b}[H\u{1b}[2J"@ + "sandblaster live scan\n"@ + "=====================\n\n"@ + "tested: "@
        + text::pad_left(comma_text(s.tested as nat), 12, ' ') + "    artifacts: "@ + text::pad_left(
        comma_text(s.artifacts_found as nat),
        8,
        ' ',
    ) + "    rate: "@ + text::pad_left(comma_text(rate as nat), 8, ' ') + "/s    elapsed: "@ + elapsed
        + "\n"@ + current_text(s.last_result) + "\nrecent instructions\n"@
        + "  v  l  s  c  dis known  bytes\n"@ + newest_rows(
        s.recent_results@,
        INSTRUCTION_LOG_LEN as nat,
    ) + "\nrecent findings\n"@ + (if s.recent_artifacts@.len() == 0 {
        "  none yet\n"@
    } else {
        "  v  l  s  c  dis known  bytes\n"@ + newest_rows(s.recent_artifacts@, ARTIFACT_LOG_LEN as nat)
    }) + "\nPress Ctrl-C to stop. Final log is written to data/log when the injector exits cleanly.\n"@
}

fn push_newest_rows(out: &mut String, items: &VecDeque<ExecutionResult>, n: usize)
    ensures
        final(out)@ == old(out)@ + newest_rows(items@, n as nat),
{
    let ghost start = out@;
    let ghost s = items@;
    let mut k: usize = 0;
    let mut i: usize = items.len();
    assert(s.take(i as int) =~= s);
    while i > 0 && k < n
        invariant
            i <= items@.len(),
            s == items@,
            k <= n,
            k == items@.len() - i,
            out@ + newest_rows(s.take(i as int), (n - k) as nat) == start + newest_rows(s, n as nat),
        decreases i,
    {
        let ghost before = out@;
        let row = format_result_row(&items[i - 1]);
        push_str(out, row.as_str());
        push_str(out, "\n");
        proof {
            let t = s.take(i as int);
            assert(t.last() == s[i - 1]);
            assert(t.drop_last() =~= s.take(i - 1));
            assert(newest_rows(t, (n - k) as nat) == row_text(t.last()) + "\n"@ + newest_rows(
                t.drop_last(),
                (n - k - 1) as nat,
            ));
            assert(out@ + newest_rows(s.take(i - 1), (n - k - 1) as nat) =~= before + newest_rows(
                t,
                (n - k) as nat,
            ));
        }
        i = i - 1;
        k = k + 1;
    }
    proof {
        assert(newest_rows(s.take(i as int), (n - k) as nat) =~= Seq::<char>::empty());
    }
}

#[verifier::spinoff_prover]
#[verifier::rlimit(40)]
fn push_current(out: &mut String, last: &Option<ExecutionResult>)
    ensures
        final(out)@ == old(out)@ + current_text(*last),
{
    let ghost start = out@;
    match last {
        Some(r) => {
            push_str(out, "current: v=");
            push_decimal_lw(out, r.valid as u64, 2);
            push_str(out, " len=");
            push_decimal_lw(out, r.length as u64, 2);
            push_str(out, " sig=");
            push_decimal_lw(out, r.signum as u64, 2);
            push_str(out, " code=");
            push_decimal_lw(out, r.si_code as u64, 3);
            push_str(out, " addr=");
            push_hex_zw(out, r.fault_addr as u64, 8);
            push_str(out, " disas_len=");
            push_decimal(out, r.disasm.length as u64);
            push_str(out, " known=");
            push_decimal(
                out,
                if r.disasm.known {
                    1
                } else {
                    0
                },
            );
            push_str(out, " ");
            let hex = result_hex(r);
            push_str(out, hex.as_str());
            push_str(out, "\n");
            assert(out@ =~= start + current_text(*last));
        },
        None => push_str(out, "current: waiting for injector results...\n"),
    }
}

/// The live screen for `stats`, with the rate and elapsed time measured by
/// the caller.
#[verifier::spinoff_prover]
pub fn render_screen(stats: &ScanStats, rate_per_second: u64, elapsed: &str) -> (r: String)
    ensures
        r@ == screen_text(*stats, rate_per_second, elapsed@),
{
    let mut out = String::new();
    push_str(&mut out, "\u{1b}[H\u{1b}[2J");
    push_str(&mut out, "sandblaster live scan\n");
    push_str(&mut out, "=====================\n\n");
    push_str(&mut out, "tested: ");
    let tested = comma(stats.tested);
    push_str_right(&mut out, tested.as_str(), 12);
    push_str(&mut out, "    artifacts: ");
    let found = comma(stats.artifacts_found);
    push_str_right(&mut out, found.as_str(), 8);
    push_str(&mut out, "    rate: ");
    let rate = comma(rate_per_second);
    push_str_right(&mut out, rate.as_str(), 8);
    push_str(&mut out, "/s    elapsed: ");
    push_str(&mut out, elapsed);
    push_str(&mut out, "\n");
    push_current(&mut out, &stats.last_result);
    push_str(&mut out, "\nrecent instructions\n");
    push_str(&mut out, "  v  l  s  c  dis known  bytes\n");
    push_newest_rows(&mut out, &stats.recent_results, INSTRUCTION_LOG_LEN);
    push_str(&mut out, "\nrecent findings\n");
    if stats.recent_artifacts.len() == 0 {
        push_str(&mut out, "  none yet\n");
    } else {
        push_str(&mut out, "  v  l  s  c  dis known  bytes\n");
        push_newest_rows(&mut out, &stats.recent_artifacts, ARTIFACT_LOG_LEN);
    }
    push_str(
        &mut out,
        "\nPress Ctrl-C to stop. Final log is written to data/log when the injector exits cleanly.\n",
    );
    out
}

// ---------------------------------------------------------------------------
// Findings table and final log
// ---------------------------------------------------------------------------

/// The target's name, or `unknown`.
pub open spec fn target_label(t: Option<TargetSpec>) -> Seq<char> {
    match t {
        Some(t) => target::spec_target_name(t),
        None => "unknown"@,
    }
}

/// A row of the findings table.
pub open spec fn finding_row(target: Option<TargetSpec>, r: ExecutionResult) -> Seq<char> {
    target_label(target) + "\t"@ + instruction::hex_pairs(r.executed_bytes()) + "\t"@
        + instruction::hex_pairs(r.instruction.spec_bytes()) + "\t"@ + text::decimal(r.valid as nat)
        + "\t"@ + text::decimal(r.length as nat) + "\t"@ + text::decimal(r.signum as nat) + "\t"@
        + text::decimal(r.si_code as nat) + "\t"@ + text::hex_zw(r.fault_addr as nat, 8) + "\t"@
        + text::decimal(bit01(r.disasm.known)) + "\t"@ + text::decimal(r.disasm.length as nat) + "\n"@
}

pub open spec fn finding_rows(target: Option<TargetSpec>, rs: Seq<ExecutionResult>) -> Seq<char>
    decreases rs.len(),
{
    if rs.len() == 0 {
        Seq::empty()
    } else {
        finding_rows(target, rs.drop_last()) + finding_row(target, rs.last())
    }
}

/// The findings table: the command lines, the column names, one row per
/// finding in the order of their executed bytes.
pub open spec fn findings_table(s: ScanStats, command_line: Seq<char>, injector_command: Seq<char>) -> Seq<char> {
    "# command\t"@ + command_line + "\n"@ + "# injector\t"@ + injector_command + "\n"@
        + "target\texecuted_hex\traw_hex\tvalid\tlength\tsignum\tsi_code\tfault_addr\tdisas_known\tdisas_length\n"@
        + finding_rows(s.target, s.artifacts@)
}

#[verifier::spinoff_prover]
#[verifier::rlimit(40)]
fn push_finding_row(out: &mut String, target: Option<TargetSpec>, r: &ExecutionResult)
    ensures
        final(out)@ == old(out)@ + finding_row(target, *r),
{
    let ghost start = out@;
    match target {
        Some(t) => push_str(out, t.name()),
        None => push_str(out, "unknown"),
    }
    push_str(out, "\t");
    let exec = r.executed_key_hex();
    push_str(out, exec.as_str());
    push_str(out, "\t");
    let raw = r.raw_payload_hex();
    push_str(out, raw.as_str());
    push_str(out, "\t");
    push_decimal(out, r.valid as u64);
    push_str(out, "\t");
    push_decimal(out, r.length as u64);
    push_str(out, "\t");
    push_decimal(out, r.signum as u64);
    push_str(out, "\t");
    push_decimal(out, r.si_code as u64);
    push_str(out, "\t");
    push_hex_zw(out, r.fault_addr as u64, 8);
    push_str(out, "\t");
    push_decimal(
        out,
        if r.disasm.known {
            1
        } else {
            0
        },
    );
    push_str(out, "\t");
    push_decimal(out, r.disasm.length as u64);
    push_str(out, "\n");
    assert(out@ =~= start + finding_row(target, *r));
}

/// The findings table of the scan.
pub fn findings_text(stats: &ScanStats, command_line: &str, injector_command: &str) -> (r: String)
    ensures
        r@ == findings_table(*stats, command_line@, injector_command@),
{
    let mut out = String::new();
    push_str(&mut out, "# command\t");
    push_str(&mut out, command_line);
    push_str(&mut out, "\n");
    push_str(&mut out, "# injector\t");
    push_str(&mut out, injector_command);
    push_str(&mut out, "\n");
    push_str(
        &mut out,
        "target\texecuted_hex\traw_hex\tvalid\tlength\tsignum\tsi_code\tfault_addr\tdisas_known\tdisas_length\n",
    );
    let ghost start = out@;
    let ghost rs = stats.artifacts@;
    let mut i: usize = 0;
    while i < stats.artifacts.len()
        invariant
            i <= stats.artifacts@.len(),
            rs == stats.artifacts@,
            out@ == start + finding_rows(stats.target, rs.take(i as int)),
        decreases stats.artifacts.len() - i,
    {
        push_finding_row(&mut out, stats.target, &stats.artifacts[i]);
        assert(rs.take(i + 1).drop_last() =~= rs.take(i as int));
        i = i + 1;
    }
    assert(rs.take(rs.len() as int) =~= rs);
    out
}

/// What the final log's architecture line says: the target's name, else the
/// machine word size.
pub open spec fn arch_label(t: Option<TargetSpec>) -> Seq<char> {
    match t {
        Some(t) => target::spec_target_name(t),
        None => text::decimal(usize::BITS as nat),
    }
}

/// The final log of the scan: its counts and command lines in the header,
/// with the runtime, date and processor the caller measured, and one record
/// per finding in the order of their executed bytes.
pub fn final_log(
    stats: &ScanStats,
    command_line: &str,
    injector_command: &str,
    runtime: &str,
    date: &str,
    cpu: CpuMetadata,
) -> (r: LegacyLog)
    ensures
        text::opt_view(r.header.command_line) == Some(command_line@),
        text::opt_view(r.header.injector_command) == Some(injector_command@),
        r.header.insn_tested == Some(stats.tested),
        r.header.artifacts_found == Some(stats.artifacts_found),
        text::opt_view(r.header.runtime) == Some(runtime@),
        r.header.seed is None,
        text::opt_view(r.header.arch) == Some(arch_label(stats.target)),
        text::opt_view(r.header.date) == Some(date@),
        r.header.cpu == cpu,
        r.header.extra_comments@.len() == 0,
        r.records@.len() == stats.artifacts@.len(),
        forall|i: int| 0 <= i < r.records@.len() ==> (#[trigger] r.records@[i]).result == stats.artifacts@[i],
{
    let arch = match stats.target {
        Some(t) => String::from_str(t.name()),
        None => {
            let mut s = String::new();
            push_decimal(&mut s, usize::BITS as u64);
            s
        },
    };
    let mut records: Vec<LegacyArtifactRecord> = Vec::new();
    let mut i: usize = 0;
    while i < stats.artifacts.len()
        invariant
            i <= stats.artifacts@.len(),
            records@.len() == i,
            forall|j: int| 0 <= j < i ==> (#[trigger] records@[j]).result == stats.artifacts@[j],
        decreases stats.artifacts.len() - i,
    {
        records.push(LegacyArtifactRecord { result: stats.artifacts[i] });
        i = i + 1;
    }
    LegacyLog {
        header: LegacyHeader {
            command_line: Some(String::from_str(command_line)),
            injector_command: Some(String::from_str(injector_command)),
            insn_tested: Some(stats.tested),
            artifacts_found: Some(stats.artifacts_found),
            runtime: Some(String::from_str(runtime)),
            seed: None,
            arch: Some(arch),
            date: Some(String::from_str(date)),
            cpu,
            extra_comments: Vec::new(),
        },
        records,
    }
}

// ---------------------------------------------------------------------------
// Summary
// ---------------------------------------------------------------------------

/// The first byte when it is a prefix.
pub open spec fn first_prefix(b: Seq<u8>) -> Option<u8> {
    if b.len() > 0 && spec_is_prefix(b[0]) {
        Some(b[0])
    } else {
        None
    }
}

/// The summary class of a finding: its opcode, its first prefix, its signal
/// and whether the disassembler knew it.
pub open spec fn summary_key(r: ExecutionResult) -> Seq<char> {
    "opcode="@ + byte_label(first_opcode(r.executed_bytes())) + " prefix="@ + byte_label(
        first_prefix(r.executed_bytes()),
    ) + " signal="@ + text::decimal(r.signum as nat) + " disasm="@ + (if r.disasm.known {
        "known"@
    } else {
        "unknown"@
    })
}

/// How many of `rs` have the class `k`.
pub open spec fn count_key(rs: Seq<ExecutionResult>, k: Seq<char>) -> nat
    decreases rs.len(),
{
    if rs.len() == 0 {
        0
    } else {
        count_key(rs.drop_last(), k) + (if summary_key(rs.last()) == k {
            1nat
        } else {
            0nat
        })
    }
}

/// `gs` lists the classes of `rs` with their counts, in increasing order of
/// the classes as strings.
pub open spec fn summary_groups(gs: Seq<(Seq<char>, nat)>, rs: Seq<ExecutionResult>) -> bool {
    &&& forall|i: int, j: int| 0 <= i < j < gs.len() ==> text::chars_lt(#[trigger] gs[i].0, #[trigger] gs[j].0)
    &&& forall|i: int| 0 <= i < gs.len() ==> (#[trigger] gs[i]).1 == count_key(rs, gs[i].0) && gs[i].1 > 0
    &&& forall|q: int| 0 <= q < rs.len() ==> exists|i: int| 0 <= i < gs.len() && (#[trigger] gs[i]).0 == summary_key(#[trigger] rs[q])
}

pub open spec fn group_lines(gs: Seq<(Seq<char>, nat)>) -> Seq<char>
    decreases gs.len(),
{
    if gs.len() == 0 {
        Seq::empty()
    } else {
        group_lines(gs.drop_last()) + text::decimal(gs.last().1) + "\t"@ + gs.last().0 + "\n"@
    }
}

/// The summary: the counts, then one line per class with its count.
pub open spec fn summary_table(tested: u64, found: u64, gs: Seq<(Seq<char>, nat)>) -> Seq<char> {
    "tested\t"@ + text::decimal(tested as nat) + "\n"@ + "artifacts\t"@ + text::decimal(found as nat)
        + "\n"@ + group_lines(gs)
}

/// The summary class of a finding, as text.
fn summary_key_text(r: &ExecutionResult) -> (k: Vec<char>)
    ensures
        k@ == summary_key(*r),
{
    let executed = r.instruction.executed_prefix(r.length as usize);
    let mut out = String::new();
    push_str(&mut out, "opcode=");
    let opcode = first_opcode_byte(executed);
    push_str(&mut out, opcode.as_str());
    push_str(&mut out, " prefix=");
    let prefix = first_prefix_byte(executed);
    push_str(&mut out, prefix.as_str());
    push_str(&mut out, " signal=");
    push_decimal(&mut out, r.signum as u64);
    push_str(&mut out, " disasm=");
    if r.disasm.known {
        push_str(&mut out, "known");
    } else {
        push_str(&mut out, "unknown");
    }
    chars_of(out.as_str())
}

/// The views of exec groups.
pub open spec fn group_views(gs: Seq<(Vec<char>, u64)>) -> Seq<(Seq<char>, nat)> {
    gs.map_values(|g: (Vec<char>, u64)| (g.0@, g.1 as nat))
}

proof fn lemma_count_push(rs: Seq<ExecutionResult>, k: int, key: Seq<char>)
    requires
        0 <= k < rs.len(),
    ensures
        count_key(rs.take(k + 1), key) == count_key(rs.take(k), key) + (if summary_key(rs[k]) == key {
            1nat
        } else {
            0nat
        }),
        count_key(rs.take(k), key) <= k,
    decreases k,
{
    assert(rs.take(k + 1).drop_last() =~= rs.take(k));
    if k > 0 {
        lemma_count_push(rs, k - 1, key);
    } else {
        assert(rs.take(0) =~= Seq::<ExecutionResult>::empty());
    }
}

/// The summary of the scan: its counts, then each class of findings with
/// how many findings it has, in the order of the classes as strings.
pub fn summary_text(stats: &ScanStats) -> (r: String)
    ensures
        exists|gs: Seq<(Seq<char>, nat)>| summary_groups(gs, stats.artifacts@) && r@ == summary_table(
            stats.tested,
            stats.artifacts_found,
            gs,
        ),
{
    let ghost rs = stats.artifacts@;
    let mut groups: Vec<(Vec<char>, u64)> = Vec::new();
    let mut k: usize = 0;
    while k < stats.artifacts.len()
        invariant
            k <= rs.len(),
            rs == stats.artifacts@,
            summary_groups(group_views(groups@), rs.take(k as int)),
            forall|i: int| 0 <= i < groups@.len() ==> (#[trigger] groups@[i]).1 <= k,
        decreases stats.artifacts.len() - k,
    {
        let key = summary_key_text(&stats.artifacts[k]);
        let ghost kv = key@;
        let ghost gs = group_views(groups@);
        let ghost old_groups = groups@;
        let mut p: usize = 0;
        while p < groups.len() && chars_less(groups[p].0.as_slice(), key.as_slice())
            invariant
                p <= groups@.len(),
                groups@ == old_groups,
                gs == group_views(groups@),
                key@ == kv,
                forall|j: int| 0 <= j < p ==> text::chars_lt(#[trigger] gs[j].0, kv),
            decreases groups.len() - p,
        {
            p = p + 1;
        }
        let present = p < groups.len() && !chars_less(key.as_slice(), groups[p].0.as_slice());
        proof {
            assert forall|key2: Seq<char>| true implies count_key(rs.take(k + 1), key2) == count_key(rs.take(k as int), key2) + (if summary_key(rs[k as int]) == key2 {
                1nat
            } else {
                0nat
            }) && count_key(rs.take(k as int), key2) <= k by {
                lemma_count_push(rs, k as int, key2);
            }
        }
        if present {
            proof {
                if gs[p as int].0 != kv {
                    text_laws::lemma_chars_total(gs[p as int].0, kv);
                }
            }
            let (name, count) = groups.remove(p);
            groups.insert(p, (name, count + 1));
            proof {
                let ng = group_views(groups@);
                assert(groups@ == old_groups.update(p as int, (name, (count + 1) as u64)));
                assert forall|i: int| 0 <= i < ng.len() implies (#[trigger] ng[i]).1 == count_key(rs.take(k + 1), ng[i].0) && ng[i].1 > 0 by {
                    assert(ng[i] == (groups@[i].0@, groups@[i].1 as nat));
                    if i != p {
                        assert(groups@[i] == old_groups[i]);
                        assert(gs[i] == ng[i]);
                        if gs[i].0 == kv {
                            if i < p {
                                assert(text::chars_lt(gs[i].0, kv));
                            } else {
                                assert(text::chars_lt(gs[p as int].0, gs[i].0));
                            }
                            text_laws::lemma_chars_irreflexive(kv);
                        }
                    }
                }
                assert forall|a: int, b: int| 0 <= a < b < ng.len() implies text::chars_lt(#[trigger] ng[a].0, #[trigger] ng[b].0) by {
                    assert(ng[a].0 == gs[a].0 && ng[b].0 == gs[b].0);
                }
                assert forall|q: int| 0 <= q < k + 1 implies exists|i: int| 0 <= i < ng.len() && (#[trigger] ng[i]).0 == summary_key(#[trigger] rs.take(k + 1)[q]) by {
                    if q < k {
                        assert(rs.take(k + 1)[q] == rs.take(k as int)[q]);
                        let i = choose|i: int| 0 <= i < gs.len() && (#[trigger] gs[i]).0 == summary_key(rs.take(k as int)[q]);
                        assert(ng[i].0 == gs[i].0);
                    } else {
                        assert(ng[p as int].0 == kv);
                    }
                }
                assert forall|i: int| 0 <= i < groups@.len() implies (#[trigger] groups@[i]).1 <= k + 1 by {
                    if i != p {
                        assert(groups@[i] == old_groups[i]);
                    }
                }
            }
        } else {
            proof {
                assert forall|j: int| 0 <= j < gs.len() implies (#[trigger] gs[j]).0 != kv by {
                    if j < p {
                        text_laws::lemma_chars_irreflexive(kv);
                    } else {
                        assert(text::chars_lt(kv, gs[p as int].0));
                        if j > p {
                            text_laws::lemma_chars_transitive(kv, gs[p as int].0, gs[j].0);
                        }
                        text_laws::lemma_chars_irreflexive(kv);
                    }
                }
                assert(count_key(rs.take(k as int), kv) == 0) by {
                    if count_key(rs.take(k as int), kv) > 0 {
                        lemma_count_positive(rs.take(k as int), kv);
                        let q = choose|q: int| 0 <= q < k && summary_key(#[trigger] rs.take(k as int)[q]) == kv;
                        let i = choose|i: int| 0 <= i < gs.len() && (#[trigger] gs[i]).0 == summary_key(rs.take(k as int)[q]);
                    }
                }
            }
            groups.insert(p, (key, 1));
            proof {
                let ng = group_views(groups@);
                assert(groups@ == old_groups.insert(p as int, (key, 1u64)));
                assert forall|i: int| 0 <= i < ng.len() implies (#[trigger] ng[i]).1 == count_key(rs.take(k + 1), ng[i].0) && ng[i].1 > 0 by {
                    if i < p {
                        assert(groups@[i] == old_groups[i]);
                        assert(ng[i] == gs[i]);
                    } else if i > p {
                        assert(groups@[i] == old_groups[i - 1]);
                        assert(ng[i] == gs[i - 1]);
                    }
                }
                assert forall|a: int, b: int| 0 <= a < b < ng.len() implies text::chars_lt(#[trigger] ng[a].0, #[trigger] ng[b].0) by {
                    if b < p {
                        assert(ng[a] == gs[a] && ng[b] == gs[b]);
                    } else if b == p {
                        assert(ng[a] == gs[a]);
                    } else if a == p {
                        assert(ng[b] == gs[b - 1]);
                        assert(text::chars_lt(kv, gs[p as int].0));
                        if b - 1 > p {
                            text_laws::lemma_chars_transitive(kv, gs[p as int].0, gs[b - 1].0);
                        }
                    } else if a < p {
                        assert(ng[a] == gs[a] && ng[b] == gs[b - 1]);
                        assert(text::chars_lt(kv, gs[p as int].0));
                        text_laws::lemma_chars_transitive(gs[a].0, kv, gs[p as int].0);
                        if b - 1 > p {
                            text_laws::lemma_chars_transitive(gs[a].0, gs[p as int].0, gs[b - 1].0);
                        }
                    } else {
                        assert(ng[a] == gs[a - 1] && ng[b] == gs[b - 1]);
                    }
                }
                assert forall|q: int| 0 <= q < k + 1 implies exists|i: int| 0 <= i < ng.len() && (#[trigger] ng[i]).0 == summary_key(#[trigger] rs.take(k + 1)[q]) by {
                    if q < k {
                        assert(rs.take(k + 1)[q] == rs.take(k as int)[q]);
                        let i = choose|i: int| 0 <= i < gs.len() && (#[trigger] gs[i]).0 == summary_key(rs.take(k as int)[q]);
                        if i < p {
                            assert(ng[i] == gs[i]);
                        } else {
                            assert(ng[i + 1] == gs[i]);
                        }
                    } else {
                        assert(ng[p as int].0 == kv);
                    }
                }
                assert forall|i: int| 0 <= i < groups@.len() implies (#[trigger] groups@[i]).1 <= k + 1 by {
                    if i < p {
                        assert(groups@[i] == old_groups[i]);
                    } else if i > p {
                        assert(groups@[i] == old_groups[i - 1]);
                    }
                }
            }
        }
        k = k + 1;
    }
    assert(rs.take(rs.len() as int) =~= rs);
    let ghost gv = group_views(groups@);
    let mut out = String::new();
    push_str(&mut out, "tested\t");
    push_decimal(&mut out, stats.tested);
    push_str(&mut out, "\n");
    push_str(&mut out, "artifacts\t");
    push_decimal(&mut out, stats.artifacts_found);
    push_str(&mut out, "\n");
    let ghost start = out@;
    let mut i: usize = 0;
    while i < groups.len()
        invariant
            i <= groups@.len(),
            gv == group_views(groups@),
            out@ == start + group_lines(gv.take(i as int)),
        decreases groups.len() - i,
    {
        push_decimal(&mut out, groups[i].1);
        push_str(&mut out, "\t");
        push_chars(&mut out, groups[i].0.as_slice());
        push_str(&mut out, "\n");
        assert(gv.take(i + 1).drop_last() =~= gv.take(i as int));
        assert(gv[i as int] == (groups@[i as int].0@, groups@[i as int].1 as nat));
        i = i + 1;
    }
    assert(gv.take(gv.len() as int) =~= gv);
    out
}

/// A class counted at least once is the class of some finding.
proof fn lemma_count_positive(rs: Seq<ExecutionResult>, key: Seq<char>)
    requires
        count_key(rs, key) > 0,
    ensures
        exists|q: int| 0 <= q < rs.len() && summary_key(#[trigger] rs[q]) == key,
    decreases rs.len(),
{
    if summary_key(rs.last()) == key {
        assert(summary_key(rs[rs.len() - 1]) == key);
    } else {
        lemma_count_positive(rs.drop_last(), key);
        let q = choose|q: int| 0 <= q < rs.drop_last().len() && summary_key(#[trigger] rs.drop_last()[q]) == key;
        assert(rs[q] == rs.drop_last()[q]);
    }
}

} // verus!
