//! Reading a written log back: the text that `LegacyLog::to_text` writes
//! parses to the same log, field for field.
use vstd::prelude::*;

use crate::cpu;
use crate::instruction::{self, InstructionBytes};
use crate::legacy_format::{self, HeaderModel, LegacyArtifactRecord, LegacyLog, LogModel, RecordFields};
use crate::result::ExecutionResult;
use crate::text;
use crate::text_laws;

verus! {

broadcast use InstructionBytes::lemma_shape;

// ---------------------------------------------------------------------------
// The parser, one line at a time
// ---------------------------------------------------------------------------

/// What parsing a log does with one line, from the model so far and whether
/// the cpu block is open: the model and block state after it, or the error.
pub open spec fn log_step(line: Seq<char>, m: LogModel, in_cpu: bool) -> Result<
    (LogModel, bool),
    (bool, Seq<char>),
> {
    if legacy_format::is_comment(line) {
        let c = line.skip(2);
        if c == "cpu:"@ {
            Ok((m, true))
        } else if in_cpu && c.contains('\t') {
            Ok(
                (
                    LogModel {
                        header: HeaderModel { cpu_lines: m.header.cpu_lines.push(c), ..m.header },
                        ..m
                    },
                    true,
                ),
            )
        } else {
            match legacy_format::header_comment(c, m.header) {
                Ok(h) => Ok((LogModel { header: h, ..m }, false)),
                Err(e) => Err((true, e)),
            }
        }
    } else if (line.len() > 0 && line[0] == '#') || text::trim(line).len() == 0 {
        Ok((m, in_cpu))
    } else {
        match legacy_format::spec_parse_record(line) {
            Ok(f) => Ok((LogModel { records: m.records.push(f), ..m }, in_cpu)),
            Err(e) => Err((false, e)),
        }
    }
}

/// The lines `ls` read in turn, from `m` and `in_cpu`.
pub open spec fn log_run(ls: Seq<Seq<char>>, m: LogModel, in_cpu: bool) -> Result<
    (LogModel, bool),
    (bool, Seq<char>),
>
    decreases ls.len(),
{
    if ls.len() == 0 {
        Ok((m, in_cpu))
    } else {
        match log_run(ls.drop_last(), m, in_cpu) {
            Ok((m2, c2)) => log_step(ls.last(), m2, c2),
            Err(e) => Err(e),
        }
    }
}

proof fn lemma_parse_step(ls: Seq<Seq<char>>, i: nat, m: LogModel, c: bool)
    requires
        i < ls.len(),
    ensures
        legacy_format::parse_log_lines(ls, i, m, c) == match log_step(ls[i as int], m, c) {
            Ok((m2, c2)) => legacy_format::parse_log_lines(ls, i + 1, m2, c2),
            Err(e) => Err(e),
        },
{
}

proof fn lemma_parse_prefix(ls: Seq<Seq<char>>, j: nat, m: LogModel, c: bool)
    requires
        j <= ls.len(),
    ensures
        legacy_format::parse_log_lines(ls, 0, m, c) == match log_run(ls.take(j as int), m, c) {
            Ok((m2, c2)) => legacy_format::parse_log_lines(ls, j, m2, c2),
            Err(e) => Err(e),
        },
    decreases j,
{
    if j == 0 {
        assert(ls.take(0) =~= Seq::<Seq<char>>::empty());
    } else {
        let k = (j - 1) as nat;
        lemma_parse_prefix(ls, k, m, c);
        assert(ls.take(j as int).drop_last() =~= ls.take(k as int));
        assert(ls.take(j as int).last() == ls[k as int]);
        match log_run(ls.take(k as int), m, c) {
            Ok((m2, c2)) => {
                lemma_parse_step(ls, k, m2, c2);
            },
            Err(e) => {},
        }
    }
}

/// Parsing all of `ls` is reading them in turn.
proof fn lemma_parse_is_run(ls: Seq<Seq<char>>, m: LogModel, c: bool)
    ensures
        legacy_format::parse_log_lines(ls, 0, m, c) == match log_run(ls, m, c) {
            Ok((m2, c2)) => Ok(m2),
            Err(e) => Err::<LogModel, (bool, Seq<char>)>(e),
        },
{
    lemma_parse_prefix(ls, ls.len(), m, c);
    assert(ls.take(ls.len() as int) =~= ls);
}

/// Reading `a + b` is reading `a`, then `b`.
proof fn lemma_run_concat(a: Seq<Seq<char>>, b: Seq<Seq<char>>, m: LogModel, c: bool)
    ensures
        log_run(a + b, m, c) == match log_run(a, m, c) {
            Ok((m2, c2)) => log_run(b, m2, c2),
            Err(e) => Err(e),
        },
    decreases b.len(),
{
    if b.len() == 0 {
        assert(a + b =~= a);
    } else {
        lemma_run_concat(a, b.drop_last(), m, c);
        assert((a + b).drop_last() =~= a + b.drop_last());
        assert((a + b).last() == b.last());
    }
}

/// Reading one line is one step.
proof fn lemma_run_one(l: Seq<char>, m: LogModel, c: bool)
    ensures
        log_run(seq![l], m, c) == log_step(l, m, c),
{
    let e = Seq::<Seq<char>>::empty();
    assert(seq![l].drop_last() =~= e);
    assert(seq![l].last() == l);
    assert(log_run(e, m, c) == Ok::<(LogModel, bool), (bool, Seq<char>)>((m, c)));
}


// ---------------------------------------------------------------------------
// The lines of a written log
// ---------------------------------------------------------------------------

/// `s` is empty or ends with a line end.
pub open spec fn ends_line(s: Seq<char>) -> bool {
    s.len() == 0 || s.last() == '\n'
}

/// The column line that closes the header.
pub open spec fn column_line() -> Seq<char> {
    "#                              v  l  s  c"@
}

/// What the column line leaves as a header comment.
pub open spec fn column_comment() -> Seq<char> {
    "                             v  l  s  c"@
}

/// The comment line of an optional text.
pub open spec fn opt_comment_lines(o: Option<Seq<char>>) -> Seq<Seq<char>> {
    match o {
        Some(s) => seq!["# "@ + s],
        None => Seq::empty(),
    }
}

/// The `key: value` line of an optional value.
pub open spec fn kv_lines(key: Seq<char>, o: Option<Seq<char>>) -> Seq<Seq<char>> {
    match o {
        Some(v) => seq!["# "@ + key + ": "@ + v],
        None => Seq::empty(),
    }
}

/// The processor lines, each as a comment.
pub open spec fn cpu_comment_lines(ls: Seq<Seq<char>>) -> Seq<Seq<char>>
    decreases ls.len(),
{
    if ls.len() == 0 {
        Seq::empty()
    } else {
        cpu_comment_lines(ls.drop_last()).push("# "@ + ls.last())
    }
}

/// The artifact line of each record.
pub open spec fn artifact_lines(rs: Seq<LegacyArtifactRecord>) -> Seq<Seq<char>>
    decreases rs.len(),
{
    if rs.len() == 0 {
        Seq::empty()
    } else {
        artifact_lines(rs.drop_last()).push(legacy_format::record_line(rs.last().result))
    }
}

/// The header lines of the written log.
pub open spec fn header_lines(h: legacy_format::LegacyHeader) -> Seq<Seq<char>> {
    seq!["#"@] + opt_comment_lines(text::opt_view(h.command_line)) + opt_comment_lines(
        text::opt_view(h.injector_command),
    ) + seq!["#"@] + kv_lines("insn tested"@, legacy_format::opt_decimal(h.insn_tested)) + kv_lines(
        "artf found"@,
        legacy_format::opt_decimal(h.artifacts_found),
    ) + kv_lines("runtime"@, text::opt_view(h.runtime)) + kv_lines(
        "seed"@,
        legacy_format::opt_decimal(h.seed),
    ) + kv_lines("arch"@, text::opt_view(h.arch)) + kv_lines("date"@, text::opt_view(h.date))
        + seq!["#"@, "# cpu:"@] + cpu_comment_lines(text::views(h.cpu.raw_lines@)) + seq![
        column_line(),
    ]
}

/// The lines of the written log.
pub open spec fn log_lines(log: LegacyLog) -> Seq<Seq<char>> {
    header_lines(log.header) + artifact_lines(log.records@)
}

/// `s` is one line, so is `# s`.
proof fn lemma_comment_one_line(s: Seq<char>)
    requires
        text::is_one_line(s),
    ensures
        text::is_one_line("# "@ + s),
{
    reveal_strlit("# ");
    text_laws::lemma_one_line_concat("# "@, s);
}

/// A comment line reads back as `# s`.
proof fn lemma_lines_comment(s: Seq<char>)
    requires
        text::is_one_line(s),
    ensures
        text::lines(legacy_format::comment_line(s)) == seq!["# "@ + s],
        ends_line(legacy_format::comment_line(s)),
{
    reveal_strlit("\n");
    lemma_comment_one_line(s);
    assert(legacy_format::comment_line(s) =~= ("# "@ + s) + seq!['\n']);
    text_laws::lemma_lines_one("# "@ + s);
}

proof fn lemma_lines_opt_comment(o: Option<Seq<char>>)
    requires
        o is Some ==> text::is_one_line(o->0),
    ensures
        text::lines(legacy_format::opt_comment(o)) == opt_comment_lines(o),
        ends_line(legacy_format::opt_comment(o)),
{
    match o {
        Some(s) => lemma_lines_comment(s),
        None => {},
    }
}

proof fn lemma_lines_kv(key: Seq<char>, o: Option<Seq<char>>)
    requires
        !key.contains('\n'),
        o is Some ==> text::is_one_line(o->0),
    ensures
        text::lines(legacy_format::kv_text(key, o)) == kv_lines(key, o),
        ends_line(legacy_format::kv_text(key, o)),
{
    match o {
        Some(v) => {
            reveal_strlit("\n");
            reveal_strlit("# ");
            reveal_strlit(": ");
            let l = "# "@ + key + ": "@ + v;
            text_laws::lemma_absent_concat("# "@, key, '\n');
            text_laws::lemma_absent_concat("# "@ + key, ": "@, '\n');
            text_laws::lemma_one_line_concat("# "@ + key + ": "@, v);
            assert(legacy_format::kv_text(key, o) =~= l + seq!['\n']);
            text_laws::lemma_lines_one(l);
        },
        None => {},
    }
}

proof fn lemma_lines_hash()
    ensures
        text::lines("#\n"@) == seq!["#"@],
        ends_line("#\n"@),
{
    reveal_strlit("#\n");
    reveal_strlit("#");
    assert("#\n"@ =~= "#"@ + seq!['\n']);
    text_laws::lemma_lines_one("#"@);
}

proof fn lemma_lines_cpu_open()
    ensures
        text::lines("#\n# cpu:\n"@) == seq!["#"@, "# cpu:"@],
        ends_line("#\n# cpu:\n"@),
{
    reveal_strlit("#\n# cpu:\n");
    reveal_strlit("#\n");
    reveal_strlit("#");
    reveal_strlit("# cpu:");
    assert("#\n# cpu:\n"@ =~= "#\n"@ + ("# cpu:"@ + seq!['\n']));
    lemma_lines_hash();
    text_laws::lemma_lines_append("#\n"@, "# cpu:"@ + seq!['\n']);
    text_laws::lemma_lines_one("# cpu:"@);
    assert(seq!["#"@] + seq!["# cpu:"@] =~= seq!["#"@, "# cpu:"@]);
}

proof fn lemma_lines_column()
    ensures
        text::lines("#                              v  l  s  c\n"@) == seq![column_line()],
        ends_line("#                              v  l  s  c\n"@),
{
    reveal_strlit("#                              v  l  s  c\n");
    reveal_strlit("#                              v  l  s  c");
    assert("#                              v  l  s  c\n"@ =~= column_line() + seq!['\n']);
    text_laws::lemma_lines_one(column_line());
}

proof fn lemma_lines_comment_lines(ls: Seq<Seq<char>>)
    requires
        forall|i: int| 0 <= i < ls.len() ==> text::is_one_line(#[trigger] ls[i]),
    ensures
        text::lines(legacy_format::comment_lines(ls)) == cpu_comment_lines(ls),
        ends_line(legacy_format::comment_lines(ls)),
    decreases ls.len(),
{
    if ls.len() > 0 {
        let init = ls.drop_last();
        assert forall|i: int| 0 <= i < init.len() implies text::is_one_line(#[trigger] init[i]) by {
            assert(init[i] == ls[i]);
        }
        lemma_lines_comment_lines(init);
        let l = ls.last();
        assert(text::is_one_line(ls[ls.len() - 1]));
        lemma_lines_comment(l);
        text_laws::lemma_lines_append(legacy_format::comment_lines(init), legacy_format::comment_line(l));
        assert(cpu_comment_lines(init) + seq!["# "@ + l] =~= cpu_comment_lines(ls));
    }
}

/// An artifact line is one line, starting with a hex digit.
proof fn lemma_record_line_shape(r: ExecutionResult)
    requires
        r.length >= 1,
    ensures
        text::is_one_line(legacy_format::record_line(r)),
        legacy_format::record_line(r).len() > 0,
        text::is_hex_digit(legacy_format::record_line(r)[0]),
{
    reveal_strlit(" ");
    reveal_strlit(" (");
    reveal_strlit(")");
    let exec = r.executed_bytes();
    let bytes = r.instruction.spec_bytes();
    let h = instruction::hex_pairs(exec);
    let raw = instruction::hex_pairs(bytes);
    instruction::lemma_hex_pairs_shape(exec);
    instruction::lemma_hex_pairs_digits(exec);
    instruction::lemma_hex_pairs_digits(bytes);
    assert(exec.len() >= 1);
    assert(text::is_hex_digit(h[0]));
    assert(!h.contains('\n')) by {
        if h.contains('\n') {
            let j = choose|j: int| 0 <= j < h.len() && h[j] == '\n';
            assert(text::is_hex_digit(h[j]));
        }
    }
    assert(!raw.contains('\n')) by {
        if raw.contains('\n') {
            let j = choose|j: int| 0 <= j < raw.len() && raw[j] == '\n';
            assert(text::is_hex_digit(raw[j]));
        }
    }
    text_laws::lemma_decimal_w_plain(r.valid as nat, 2);
    text_laws::lemma_decimal_w_plain(r.length as nat, 2);
    text_laws::lemma_decimal_w_plain(r.signum as nat, 2);
    text_laws::lemma_decimal_w_plain(r.si_code as nat, 2);
    let pv = text::decimal_w(r.valid as nat, 2);
    let pl = text::decimal_w(r.length as nat, 2);
    let ps = text::decimal_w(r.signum as nat, 2);
    let pc = text::decimal_w(r.si_code as nat, 2);
    let a1 = h + " "@;
    text_laws::lemma_absent_concat(h, " "@, '\n');
    let a2 = a1 + pv;
    text_laws::lemma_absent_concat(a1, pv, '\n');
    let a3 = a2 + " "@;
    text_laws::lemma_absent_concat(a2, " "@, '\n');
    let a4 = a3 + pl;
    text_laws::lemma_absent_concat(a3, pl, '\n');
    let a5 = a4 + " "@;
    text_laws::lemma_absent_concat(a4, " "@, '\n');
    let a6 = a5 + ps;
    text_laws::lemma_absent_concat(a5, ps, '\n');
    let a7 = a6 + " "@;
    text_laws::lemma_absent_concat(a6, " "@, '\n');
    let a8 = a7 + pc;
    text_laws::lemma_absent_concat(a7, pc, '\n');
    let a9 = a8 + " ("@;
    text_laws::lemma_absent_concat(a8, " ("@, '\n');
    let a10 = a9 + raw;
    text_laws::lemma_absent_concat(a9, raw, '\n');
    text_laws::lemma_one_line_concat(a10, ")"@);
    assert(legacy_format::record_line(r) == a10 + ")"@);
    assert((a10 + ")"@)[0] == h[0]);
}

proof fn lemma_lines_record_lines(rs: Seq<LegacyArtifactRecord>)
    requires
        forall|i: int| 0 <= i < rs.len() ==> (#[trigger] rs[i]).result.length >= 1,
    ensures
        text::lines(legacy_format::record_lines(rs)) == artifact_lines(rs),
        ends_line(legacy_format::record_lines(rs)),
    decreases rs.len(),
{
    if rs.len() > 0 {
        let init = rs.drop_last();
        assert forall|i: int| 0 <= i < init.len() implies (#[trigger] init[i]).result.length >= 1 by {
            assert(init[i] == rs[i]);
        }
        lemma_lines_record_lines(init);
        let r = rs.last().result;
        assert(rs[rs.len() - 1].result.length >= 1);
        lemma_record_line_shape(r);
        reveal_strlit("\n");
        let l = legacy_format::record_line(r);
        assert(l + "\n"@ =~= l + seq!['\n']);
        text_laws::lemma_lines_one(l);
        text_laws::lemma_lines_append(legacy_format::record_lines(init), l + "\n"@);
        assert(artifact_lines(init) + seq![l] =~= artifact_lines(rs));
        assert((legacy_format::record_lines(init) + l + "\n"@) =~= legacy_format::record_lines(init) + (l + "\n"@));
    }
}


proof fn lemma_ends_line_concat(a: Seq<char>, b: Seq<char>)
    requires
        ends_line(a),
        ends_line(b),
    ensures
        ends_line(a + b),
{
    if b.len() > 0 {
        assert((a + b).last() == b.last());
    } else {
        assert(a + b =~= a);
    }
}

// ---------------------------------------------------------------------------
// Which logs read back
// ---------------------------------------------------------------------------

/// A command line written in the header: one line, without a colon.
pub open spec fn command_text(s: Seq<char>) -> bool {
    text::is_one_line(s) && !s.contains(':')
}

/// A text value written after its key: one line, with no whitespace at its
/// ends.
pub open spec fn value_text(o: Option<Seq<char>>) -> bool {
    match o {
        Some(v) => text::is_one_line(v) && text::trim(v) == v,
        None => true,
    }
}

/// An artifact as parsing makes one: at least one executed byte, as many
/// specified bytes as executed ones, no disassembly, no fault address.
pub open spec fn artifact_reads_back(r: ExecutionResult) -> bool {
    &&& r.length >= 1
    &&& r.instruction.spec_len() == instruction::clamp16(r.length as nat)
    &&& r.disasm.length == 0
    &&& !r.disasm.known
    &&& r.fault_addr == u32::MAX
}

/// The logs whose text reads back field for field: both command lines
/// present as `command_text`, the runtime, arch and date as `value_text`,
/// every processor line one line holding a tab, and every artifact as
/// `artifact_reads_back`.
pub open spec fn writes_readably(log: LegacyLog) -> bool {
    let h = log.header;
    let cl = text::views(h.cpu.raw_lines@);
    &&& (text::opt_view(h.command_line) matches Some(s) && command_text(s))
    &&& (text::opt_view(h.injector_command) matches Some(s) && command_text(s))
    &&& value_text(text::opt_view(h.runtime))
    &&& value_text(text::opt_view(h.arch))
    &&& value_text(text::opt_view(h.date))
    &&& forall|i: int|
        0 <= i < cl.len() ==> text::is_one_line(#[trigger] cl[i]) && cl[i].contains('\t')
    &&& forall|i: int|
        0 <= i < log.records@.len() ==> artifact_reads_back(#[trigger] log.records@[i].result)
}

/// The logs whose text reads back as themselves: those that
/// `writes_readably`, whose processor fields and word size are those its
/// lines and `arch` give, and whose one extra comment is what the column
/// line leaves.
pub open spec fn reads_back(log: LegacyLog) -> bool {
    let h = log.header;
    let cl = text::views(h.cpu.raw_lines@);
    &&& writes_readably(log)
    &&& cpu::cpu_fields_from(h.cpu, cl)
    &&& h.cpu.architecture_bits == legacy_format::arch_bits(text::opt_view(h.arch))
    &&& text::views(h.extra_comments@) == seq![column_comment()]
}

/// The fields an artifact line of `r` holds.
pub open spec fn record_fields(r: ExecutionResult) -> RecordFields {
    RecordFields {
        raw: r.instruction.spec_bytes(),
        executed_len: instruction::clamp16(r.length as nat),
        valid: r.valid as nat,
        length: r.length as nat,
        signum: r.signum as nat,
        si_code: r.si_code as nat,
    }
}

/// The header of `h`, strings by their characters.
pub open spec fn header_model(h: legacy_format::LegacyHeader) -> HeaderModel {
    HeaderModel {
        command_line: text::opt_view(h.command_line),
        injector_command: text::opt_view(h.injector_command),
        insn_tested: legacy_format::opt_nat(h.insn_tested),
        artifacts_found: legacy_format::opt_nat(h.artifacts_found),
        runtime: text::opt_view(h.runtime),
        seed: legacy_format::opt_nat(h.seed),
        arch: text::opt_view(h.arch),
        date: text::opt_view(h.date),
        cpu_lines: text::views(h.cpu.raw_lines@),
        extra_comments: text::views(h.extra_comments@),
    }
}

/// The fields of each artifact line.
pub open spec fn records_fields(rs: Seq<LegacyArtifactRecord>) -> Seq<RecordFields>
    decreases rs.len(),
{
    if rs.len() == 0 {
        Seq::empty()
    } else {
        records_fields(rs.drop_last()).push(record_fields(rs.last().result))
    }
}

/// What the text written for `log` records: the log's header, but with the
/// column line as its one extra comment, and its records.
pub open spec fn written_model(log: LegacyLog) -> LogModel {
    LogModel {
        header: HeaderModel { extra_comments: seq![column_comment()], ..header_model(log.header) },
        records: records_fields(log.records@),
    }
}

/// What `log` records.
pub open spec fn log_model(log: LegacyLog) -> LogModel {
    LogModel { header: header_model(log.header), records: records_fields(log.records@) }
}

/// The text of a log that reads back is the lines of `log_lines`.
proof fn lemma_log_lines(log: LegacyLog)
    requires
        writes_readably(log),
    ensures
        text::lines(legacy_format::log_text(log)) == log_lines(log),
{
    let h = log.header;
    let cl = text::views(h.cpu.raw_lines@);
    reveal_strlit("insn tested");
    reveal_strlit("artf found");
    reveal_strlit("runtime");
    reveal_strlit("seed");
    reveal_strlit("arch");
    reveal_strlit("date");
    let t0 = "#\n"@;
    let t1 = legacy_format::opt_comment(text::opt_view(h.command_line));
    let t2 = legacy_format::opt_comment(text::opt_view(h.injector_command));
    let t3 = "#\n"@;
    let t4 = legacy_format::kv_text("insn tested"@, legacy_format::opt_decimal(h.insn_tested));
    let t5 = legacy_format::kv_text("artf found"@, legacy_format::opt_decimal(h.artifacts_found));
    let t6 = legacy_format::kv_text("runtime"@, text::opt_view(h.runtime));
    let t7 = legacy_format::kv_text("seed"@, legacy_format::opt_decimal(h.seed));
    let t8 = legacy_format::kv_text("arch"@, text::opt_view(h.arch));
    let t9 = legacy_format::kv_text("date"@, text::opt_view(h.date));
    let t10 = "#\n# cpu:\n"@;
    let t11 = legacy_format::comment_lines(cl);
    let t12 = "#                              v  l  s  c\n"@;
    let t13 = legacy_format::record_lines(log.records@);
    lemma_lines_hash();
    lemma_lines_opt_comment(text::opt_view(h.command_line));
    lemma_lines_opt_comment(text::opt_view(h.injector_command));
    if let Some(n) = h.insn_tested {
        text_laws::lemma_decimal_w_plain(n as nat, 0);
    }
    if let Some(n) = h.artifacts_found {
        text_laws::lemma_decimal_w_plain(n as nat, 0);
    }
    if let Some(n) = h.seed {
        text_laws::lemma_decimal_w_plain(n as nat, 0);
    }
    lemma_lines_kv("insn tested"@, legacy_format::opt_decimal(h.insn_tested));
    lemma_lines_kv("artf found"@, legacy_format::opt_decimal(h.artifacts_found));
    lemma_lines_kv("runtime"@, text::opt_view(h.runtime));
    lemma_lines_kv("seed"@, legacy_format::opt_decimal(h.seed));
    lemma_lines_kv("arch"@, text::opt_view(h.arch));
    lemma_lines_kv("date"@, text::opt_view(h.date));
    lemma_lines_cpu_open();
    assert forall|i: int| 0 <= i < cl.len() implies text::is_one_line(#[trigger] cl[i]) by {
        assert(text::is_one_line(cl[i]) && cl[i].contains('\t'));
    }
    lemma_lines_comment_lines(cl);
    lemma_lines_column();
    assert forall|i: int| 0 <= i < log.records@.len() implies (
    #[trigger] log.records@[i]).result.length >= 1 by {
        assert(artifact_reads_back(log.records@[i].result));
    }
    lemma_lines_record_lines(log.records@);
    let p1 = t0 + t1;
    text_laws::lemma_lines_append(t0, t1);
    lemma_ends_line_concat(t0, t1);
    let p2 = p1 + t2;
    text_laws::lemma_lines_append(p1, t2);
    lemma_ends_line_concat(p1, t2);
    let p3 = p2 + t3;
    text_laws::lemma_lines_append(p2, t3);
    lemma_ends_line_concat(p2, t3);
    let p4 = p3 + t4;
    text_laws::lemma_lines_append(p3, t4);
    lemma_ends_line_concat(p3, t4);
    let p5 = p4 + t5;
    text_laws::lemma_lines_append(p4, t5);
    lemma_ends_line_concat(p4, t5);
    let p6 = p5 + t6;
    text_laws::lemma_lines_append(p5, t6);
    lemma_ends_line_concat(p5, t6);
    let p7 = p6 + t7;
    text_laws::lemma_lines_append(p6, t7);
    lemma_ends_line_concat(p6, t7);
    let p8 = p7 + t8;
    text_laws::lemma_lines_append(p7, t8);
    lemma_ends_line_concat(p7, t8);
    let p9 = p8 + t9;
    text_laws::lemma_lines_append(p8, t9);
    lemma_ends_line_concat(p8, t9);
    let p10 = p9 + t10;
    text_laws::lemma_lines_append(p9, t10);
    lemma_ends_line_concat(p9, t10);
    let p11 = p10 + t11;
    text_laws::lemma_lines_append(p10, t11);
    lemma_ends_line_concat(p10, t11);
    let p12 = p11 + t12;
    text_laws::lemma_lines_append(p11, t12);
    lemma_ends_line_concat(p11, t12);
    text_laws::lemma_lines_append(p12, t13);
    assert(legacy_format::log_text(log) == p12 + t13);
}


// ---------------------------------------------------------------------------
// Reading the lines back
// ---------------------------------------------------------------------------

proof fn lemma_step_hash(m: LogModel, c: bool)
    ensures
        log_step("#"@, m, c) == Ok::<(LogModel, bool), (bool, Seq<char>)>((m, c)),
{
    reveal_strlit("#");
}

/// A comment other than the cpu marker or a processor line goes to the
/// header and closes the cpu block.
proof fn lemma_step_comment(c: Seq<char>, m: LogModel, in_cpu: bool)
    requires
        c != "cpu:"@,
        !(in_cpu && c.contains('\t')),
    ensures
        log_step("# "@ + c, m, in_cpu) == match legacy_format::header_comment(c, m.header) {
            Ok(h) => Ok((LogModel { header: h, ..m }, false)),
            Err(e) => Err((true, e)),
        },
{
    reveal_strlit("# ");
    let l = "# "@ + c;
    assert(l.take(2) =~= "# "@);
    assert(l.skip(2) =~= c);
}

proof fn lemma_step_cpu_open(m: LogModel, c: bool)
    ensures
        log_step("# cpu:"@, m, c) == Ok::<(LogModel, bool), (bool, Seq<char>)>((m, true)),
{
    reveal_strlit("# cpu:");
    reveal_strlit("# ");
    reveal_strlit("cpu:");
    assert("# cpu:"@.take(2) =~= "# "@);
    assert("# cpu:"@.skip(2) =~= "cpu:"@);
}

proof fn lemma_step_cpu_line(l: Seq<char>, m: LogModel)
    requires
        l.contains('\t'),
    ensures
        log_step("# "@ + l, m, true) == Ok::<(LogModel, bool), (bool, Seq<char>)>(
            (
                LogModel {
                    header: HeaderModel { cpu_lines: m.header.cpu_lines.push(l), ..m.header },
                    ..m
                },
                true,
            ),
        ),
{
    reveal_strlit("# ");
    reveal_strlit("cpu:");
    let x = "# "@ + l;
    assert(x.take(2) =~= "# "@);
    assert(x.skip(2) =~= l);
    if l == "cpu:"@ {
        let j = choose|j: int| 0 <= j < l.len() && l[j] == '\t';
        assert("cpu:"@[j] == '\t');
    }
}

/// A header comment without a colon.
proof fn lemma_key_value_none(c: Seq<char>)
    requires
        !c.contains(':'),
    ensures
        text::key_value(c) is None,
{
    text_laws::lemma_first_index_absent(c, ':');
}

/// What reading the `key: value` line of `o` makes of `m`.
proof fn lemma_run_kv(key: Seq<char>, o: Option<Seq<char>>, m: LogModel)
    requires
        !key.contains(':'),
        text::trim(key) == key,
        key.len() > 3,
        o is Some ==> text::trim(o->0) == o->0,
    ensures
        log_run(kv_lines(key, o), m, false) == match o {
            Some(v) => match legacy_format::header_comment(key + ": "@ + v, m.header) {
                Ok(h) => Ok((LogModel { header: h, ..m }, false)),
                Err(e) => Err((true, e)),
            },
            None => Ok((m, false)),
        },
        o is Some ==> text::key_value(key + ": "@ + o->0) == Some((key, o->0)),
{
    reveal_strlit(": ");
    reveal_strlit("cpu:");
    match o {
        Some(v) => {
            let c = key + ": "@ + v;
            assert(c =~= key + seq![':', ' '] + v);
            text_laws::lemma_key_value_of(key, v);
            assert(c.len() > 4);
            assert(("# "@ + key + ": "@ + v) =~= "# "@ + c);
            lemma_step_comment(c, m, false);
            lemma_run_one("# "@ + c, m, false);
        },
        None => {
            assert(log_run(Seq::<Seq<char>>::empty(), m, false) == Ok::<
                (LogModel, bool),
                (bool, Seq<char>),
            >((m, false)));
        },
    }
}


/// The header keys tell apart by their length and first character.
proof fn lemma_keys()
    ensures
        "insn tested"@.len() == 11,
        "artf found"@.len() == 10,
        "runtime"@.len() == 7,
        "seed"@.len() == 4 && "seed"@[0] == 's',
        "arch"@.len() == 4 && "arch"@[0] == 'a',
        "date"@.len() == 4 && "date"@[0] == 'd',
{
    reveal_strlit("insn tested");
    reveal_strlit("artf found");
    reveal_strlit("runtime");
    reveal_strlit("seed");
    reveal_strlit("arch");
    reveal_strlit("date");
}

/// Reading a count line sets its count.
proof fn lemma_run_count(key: Seq<char>, x: Option<u64>, m: LogModel)
    requires
        key == "insn tested"@ || key == "artf found"@ || key == "seed"@,
        key == "insn tested"@ ==> m.header.insn_tested is None,
        key == "artf found"@ ==> m.header.artifacts_found is None,
        key == "seed"@ ==> m.header.seed is None,
    ensures
        log_run(kv_lines(key, legacy_format::opt_decimal(x)), m, false) == Ok::<
            (LogModel, bool),
            (bool, Seq<char>),
        >(
            (
                LogModel {
                    header: if key == "insn tested"@ {
                        HeaderModel { insn_tested: legacy_format::opt_nat(x), ..m.header }
                    } else if key == "artf found"@ {
                        HeaderModel { artifacts_found: legacy_format::opt_nat(x), ..m.header }
                    } else {
                        HeaderModel { seed: legacy_format::opt_nat(x), ..m.header }
                    },
                    ..m
                },
                false,
            ),
        ),
{
    reveal_strlit("insn tested");
    reveal_strlit("artf found");
    reveal_strlit("seed");
    assert(key.len() > 3);
    text_laws::lemma_trim_fixed(key);
    match x {
        Some(n) => {
            text_laws::lemma_decimal_w_plain(n as nat, 0);
            text_laws::lemma_parse_decimal_of(n as nat, u64::MAX as nat);
            lemma_run_kv(key, legacy_format::opt_decimal(x), m);
            let d = text::decimal(n as nat);
            assert(text::key_value(key + ": "@ + d) == Some((key, d)));
            assert(text::parse_unsigned(d, u64::MAX as nat) == Some(n as nat));
            lemma_keys();
        },
        None => {
            lemma_run_kv(key, legacy_format::opt_decimal(x), m);
        },
    }
}


/// Reading a text value line sets its value.
proof fn lemma_run_value(key: Seq<char>, o: Option<Seq<char>>, m: LogModel)
    requires
        key == "runtime"@ || key == "arch"@ || key == "date"@,
        key == "runtime"@ ==> m.header.runtime is None,
        key == "arch"@ ==> m.header.arch is None,
        key == "date"@ ==> m.header.date is None,
        value_text(o),
    ensures
        log_run(kv_lines(key, o), m, false) == Ok::<(LogModel, bool), (bool, Seq<char>)>(
            (
                LogModel {
                    header: if key == "runtime"@ {
                        HeaderModel { runtime: o, ..m.header }
                    } else if key == "arch"@ {
                        HeaderModel { arch: o, ..m.header }
                    } else {
                        HeaderModel { date: o, ..m.header }
                    },
                    ..m
                },
                false,
            ),
        ),
{
    reveal_strlit("runtime");
    reveal_strlit("arch");
    reveal_strlit("date");
    lemma_keys();
    text_laws::lemma_trim_fixed(key);
    lemma_run_kv(key, o, m);
}

/// Reading a command line (no colon) fills the first free command field.
proof fn lemma_run_command(s: Seq<char>, m: LogModel)
    requires
        command_text(s),
        m.header.injector_command is None,
    ensures
        log_run(seq!["# "@ + s], m, false) == Ok::<(LogModel, bool), (bool, Seq<char>)>(
            (
                LogModel {
                    header: if m.header.command_line is None {
                        HeaderModel { command_line: Some(s), ..m.header }
                    } else {
                        HeaderModel { injector_command: Some(s), ..m.header }
                    },
                    ..m
                },
                false,
            ),
        ),
{
    reveal_strlit("cpu:");
    if s == "cpu:"@ {
        assert("cpu:"@[3] == ':');
        assert(s[3] == ':');
    }
    lemma_key_value_none(s);
    lemma_step_comment(s, m, false);
    lemma_run_one("# "@ + s, m, false);
}

/// The column line, read with both command lines known, is kept as an extra
/// comment and closes the cpu block.
proof fn lemma_run_column(m: LogModel)
    requires
        m.header.command_line is Some,
        m.header.injector_command is Some,
    ensures
        log_run(seq![column_line()], m, true) == Ok::<(LogModel, bool), (bool, Seq<char>)>(
            (
                LogModel {
                    header: HeaderModel {
                        extra_comments: m.header.extra_comments.push(column_comment()),
                        ..m.header
                    },
                    ..m
                },
                false,
            ),
        ),
{
    reveal_strlit("#                              v  l  s  c");
    reveal_strlit("                             v  l  s  c");
    reveal_strlit("# ");
    reveal_strlit("cpu:");
    let c = column_comment();
    assert(column_line() =~= "# "@ + c);
    assert(c.len() == 39);
    assert(!c.contains('\t'));
    assert(!c.contains(':'));
    lemma_key_value_none(c);
    lemma_step_comment(c, m, true);
    lemma_run_one(column_line(), m, true);
}

/// The processor lines, read in the open cpu block, are kept in turn.
proof fn lemma_run_cpu_lines(ls: Seq<Seq<char>>, m: LogModel)
    requires
        forall|i: int| 0 <= i < ls.len() ==> (#[trigger] ls[i]).contains('\t'),
    ensures
        log_run(cpu_comment_lines(ls), m, true) == Ok::<(LogModel, bool), (bool, Seq<char>)>(
            (
                LogModel {
                    header: HeaderModel { cpu_lines: m.header.cpu_lines + ls, ..m.header },
                    ..m
                },
                true,
            ),
        ),
    decreases ls.len(),
{
    if ls.len() == 0 {
        assert(m.header.cpu_lines + ls =~= m.header.cpu_lines);
        assert(HeaderModel { cpu_lines: m.header.cpu_lines + ls, ..m.header } == m.header);
    } else {
        let init = ls.drop_last();
        assert forall|i: int| 0 <= i < init.len() implies (#[trigger] init[i]).contains('\t') by {
            assert(init[i] == ls[i]);
        }
        lemma_run_cpu_lines(init, m);
        let l = ls.last();
        assert(ls[ls.len() - 1].contains('\t'));
        let x = cpu_comment_lines(ls);
        assert(x.drop_last() =~= cpu_comment_lines(init));
        assert(x.last() == "# "@ + l);
        let m2 = LogModel {
            header: HeaderModel { cpu_lines: m.header.cpu_lines + init, ..m.header },
            ..m
        };
        lemma_step_cpu_line(l, m2);
        assert((m.header.cpu_lines + init).push(l) =~= m.header.cpu_lines + ls);
    }
}


/// An artifact line adds its record's fields.
proof fn lemma_step_record(r: ExecutionResult, m: LogModel)
    requires
        r.length >= 1,
    ensures
        log_step(legacy_format::record_line(r), m, false) == Ok::<
            (LogModel, bool),
            (bool, Seq<char>),
        >((LogModel { records: m.records.push(record_fields(r)), ..m }, false)),
{
    reveal_strlit("# ");
    let l = legacy_format::record_line(r);
    lemma_record_line_shape(r);
    if legacy_format::is_comment(l) {
        assert(l.take(2)[0] == "# "@[0]);
    }
    text_laws::lemma_trim_nonempty(l);
    legacy_format::lemma_record_round_trip(r);
}

/// The artifact lines add their records' fields in turn.
proof fn lemma_run_records(rs: Seq<LegacyArtifactRecord>, m: LogModel)
    requires
        forall|i: int| 0 <= i < rs.len() ==> (#[trigger] rs[i]).result.length >= 1,
    ensures
        log_run(artifact_lines(rs), m, false) == Ok::<(LogModel, bool), (bool, Seq<char>)>(
            (LogModel { records: m.records + records_fields(rs), ..m }, false),
        ),
    decreases rs.len(),
{
    if rs.len() == 0 {
        assert(m.records + records_fields(rs) =~= m.records);
    } else {
        let init = rs.drop_last();
        assert forall|i: int| 0 <= i < init.len() implies (#[trigger] init[i]).result.length >= 1 by {
            assert(init[i] == rs[i]);
        }
        lemma_run_records(init, m);
        let r = rs.last().result;
        assert(rs[rs.len() - 1].result.length >= 1);
        let x = artifact_lines(rs);
        assert(x.drop_last() =~= artifact_lines(init));
        let m2 = LogModel { records: m.records + records_fields(init), ..m };
        lemma_step_record(r, m2);
        assert((m.records + records_fields(init)).push(record_fields(r)) =~= m.records
            + records_fields(rs));
    }
}

/// Reading the header lines of a log that reads back gives its header.
#[verifier::spinoff_prover]
#[verifier::rlimit(40)]
proof fn lemma_run_header(log: LegacyLog)
    requires
        writes_readably(log),
    ensures
        log_run(
            header_lines(log.header),
            LogModel { header: legacy_format::empty_header(), records: Seq::empty() },
            false,
        ) == Ok::<(LogModel, bool), (bool, Seq<char>)>(
            (LogModel { header: written_model(log).header, records: Seq::empty() }, false),
        ),
{
    let h = log.header;
    let cl = text::views(h.cpu.raw_lines@);
    let cmd = text::opt_view(h.command_line)->0;
    let inj = text::opt_view(h.injector_command)->0;
    let rs0 = Seq::<RecordFields>::empty();
    let h0 = legacy_format::empty_header();
    let h1 = HeaderModel { command_line: Some(cmd), ..h0 };
    let h2 = HeaderModel { injector_command: Some(inj), ..h1 };
    let h3 = HeaderModel { insn_tested: legacy_format::opt_nat(h.insn_tested), ..h2 };
    let h4 = HeaderModel { artifacts_found: legacy_format::opt_nat(h.artifacts_found), ..h3 };
    let h5 = HeaderModel { runtime: text::opt_view(h.runtime), ..h4 };
    let h6 = HeaderModel { seed: legacy_format::opt_nat(h.seed), ..h5 };
    let h7 = HeaderModel { arch: text::opt_view(h.arch), ..h6 };
    let h8 = HeaderModel { date: text::opt_view(h.date), ..h7 };
    let h9 = HeaderModel { cpu_lines: cl, ..h8 };
    let h10 = HeaderModel { extra_comments: seq![column_comment()], ..h9 };
    let mk = |x: HeaderModel| LogModel { header: x, records: rs0 };
    let l0 = seq!["#"@];
    let l1 = opt_comment_lines(text::opt_view(h.command_line));
    let l2 = opt_comment_lines(text::opt_view(h.injector_command));
    let l4 = kv_lines("insn tested"@, legacy_format::opt_decimal(h.insn_tested));
    let l5 = kv_lines("artf found"@, legacy_format::opt_decimal(h.artifacts_found));
    let l6 = kv_lines("runtime"@, text::opt_view(h.runtime));
    let l7 = kv_lines("seed"@, legacy_format::opt_decimal(h.seed));
    let l8 = kv_lines("arch"@, text::opt_view(h.arch));
    let l9 = kv_lines("date"@, text::opt_view(h.date));
    let l10 = seq!["#"@, "# cpu:"@];
    let l11 = cpu_comment_lines(cl);
    let l12 = seq![column_line()];
    lemma_keys();
    // "#"
    lemma_run_one("#"@, mk(h0), false);
    lemma_step_hash(mk(h0), false);
    // the command lines
    lemma_run_command(cmd, mk(h0));
    let p1 = l0 + l1;
    lemma_run_concat(l0, l1, mk(h0), false);
    lemma_run_command(inj, mk(h1));
    let p2 = p1 + l2;
    lemma_run_concat(p1, l2, mk(h0), false);
    assert(log_run(p2, mk(h0), false) == Ok::<(LogModel, bool), (bool, Seq<char>)>((mk(h2), false)));
    // "#"
    let p3 = p2 + l0;
    lemma_run_concat(p2, l0, mk(h0), false);
    lemma_run_one("#"@, mk(h2), false);
    lemma_step_hash(mk(h2), false);
    // the counts and values
    lemma_run_count("insn tested"@, h.insn_tested, mk(h2));
    let p4 = p3 + l4;
    lemma_run_concat(p3, l4, mk(h0), false);
    assert(log_run(p4, mk(h0), false) == Ok::<(LogModel, bool), (bool, Seq<char>)>((mk(h3), false)));
    lemma_run_count("artf found"@, h.artifacts_found, mk(h3));
    let p5 = p4 + l5;
    lemma_run_concat(p4, l5, mk(h0), false);
    assert(log_run(p5, mk(h0), false) == Ok::<(LogModel, bool), (bool, Seq<char>)>((mk(h4), false)));
    lemma_run_value("runtime"@, text::opt_view(h.runtime), mk(h4));
    let p6 = p5 + l6;
    lemma_run_concat(p5, l6, mk(h0), false);
    assert(log_run(p6, mk(h0), false) == Ok::<(LogModel, bool), (bool, Seq<char>)>((mk(h5), false)));
    lemma_run_count("seed"@, h.seed, mk(h5));
    let p7 = p6 + l7;
    lemma_run_concat(p6, l7, mk(h0), false);
    assert(log_run(p7, mk(h0), false) == Ok::<(LogModel, bool), (bool, Seq<char>)>((mk(h6), false)));
    lemma_run_value("arch"@, text::opt_view(h.arch), mk(h6));
    let p8 = p7 + l8;
    lemma_run_concat(p7, l8, mk(h0), false);
    assert(log_run(p8, mk(h0), false) == Ok::<(LogModel, bool), (bool, Seq<char>)>((mk(h7), false)));
    lemma_run_value("date"@, text::opt_view(h.date), mk(h7));
    let p9 = p8 + l9;
    lemma_run_concat(p8, l9, mk(h0), false);
    assert(log_run(p9, mk(h0), false) == Ok::<(LogModel, bool), (bool, Seq<char>)>((mk(h8), false)));
    // the cpu block
    let p10 = p9 + l10;
    lemma_run_concat(p9, l10, mk(h0), false);
    lemma_run_concat(seq!["#"@], seq!["# cpu:"@], mk(h8), false);
    assert(seq!["#"@] + seq!["# cpu:"@] =~= l10);
    lemma_run_one("#"@, mk(h8), false);
    lemma_step_hash(mk(h8), false);
    lemma_run_one("# cpu:"@, mk(h8), false);
    lemma_step_cpu_open(mk(h8), false);
    assert(log_run(p10, mk(h0), false) == Ok::<(LogModel, bool), (bool, Seq<char>)>((mk(h8), true)));
    assert forall|i: int| 0 <= i < cl.len() implies (#[trigger] cl[i]).contains('\t') by {
        assert(text::is_one_line(cl[i]) && cl[i].contains('\t'));
    }
    lemma_run_cpu_lines(cl, mk(h8));
    assert(h8.cpu_lines + cl =~= cl);
    let p11 = p10 + l11;
    lemma_run_concat(p10, l11, mk(h0), false);
    assert(log_run(p11, mk(h0), false) == Ok::<(LogModel, bool), (bool, Seq<char>)>((mk(h9), true)));
    // the column line
    lemma_run_column(mk(h9));
    assert(h9.extra_comments.push(column_comment()) =~= seq![column_comment()]);
    lemma_run_concat(p11, l12, mk(h0), false);
    assert(header_lines(h) == p11 + l12);
    assert(h10 == written_model(log).header);
}


proof fn lemma_records_fields(rs: Seq<LegacyArtifactRecord>)
    ensures
        records_fields(rs).len() == rs.len(),
        forall|i: int|
            0 <= i < rs.len() ==> #[trigger] records_fields(rs)[i] == record_fields(rs[i].result),
    decreases rs.len(),
{
    if rs.len() > 0 {
        lemma_records_fields(rs.drop_last());
        assert forall|i: int| 0 <= i < rs.len() implies #[trigger] records_fields(rs)[i]
            == record_fields(rs[i].result) by {
            if i < rs.len() - 1 {
                assert(records_fields(rs)[i] == records_fields(rs.drop_last())[i]);
                assert(rs.drop_last()[i] == rs[i]);
            }
        }
    }
}

// ---------------------------------------------------------------------------
// The law
// ---------------------------------------------------------------------------

/// Writing a log and parsing the text back gives its fields again. For
/// every log that `writes_readably`, the text that `LegacyLog::to_text`
/// writes parses to `written_model(log)`: the same command lines, counts,
/// runtime, seed, arch, date and processor lines, the column line as the one
/// extra comment, and records that agree with the log's in every field.
pub proof fn lemma_log_reads_back(log: LegacyLog)
    requires
        writes_readably(log),
    ensures
        legacy_format::spec_parse_log(legacy_format::log_text(log)) == Ok::<
            LogModel,
            (bool, Seq<char>),
        >(written_model(log)),
        written_model(log).records.len() == log.records@.len(),
        forall|i: int|
            0 <= i < log.records@.len() ==> legacy_format::record_matches(
                log.records@[i],
                #[trigger] written_model(log).records[i],
            ),
{
    let h = log.header;
    let rs = log.records@;
    let m0 = LogModel { header: legacy_format::empty_header(), records: Seq::empty() };
    let mh = LogModel { header: written_model(log).header, records: Seq::empty() };
    lemma_log_lines(log);
    lemma_parse_is_run(log_lines(log), m0, false);
    lemma_run_concat(header_lines(h), artifact_lines(rs), m0, false);
    lemma_run_header(log);
    assert forall|i: int| 0 <= i < rs.len() implies (#[trigger] rs[i]).result.length >= 1 by {
        assert(artifact_reads_back(rs[i].result));
    }
    lemma_run_records(rs, mh);
    assert(mh.records + records_fields(rs) =~= records_fields(rs));
    lemma_records_fields(rs);
    assert forall|i: int| 0 <= i < rs.len() implies legacy_format::record_matches(
        rs[i],
        #[trigger] written_model(log).records[i],
    ) by {
        let r = rs[i].result;
        assert(artifact_reads_back(r));
        assert(instruction::zero_extend(r.instruction.spec_bytes()) =~= r.instruction.spec_bytes());
    }
}

/// Writing a log and parsing the text back gives the log itself. For every
/// log that `reads_back`, the text that `LegacyLog::to_text` writes parses
/// to the model of the log itself, so `LegacyLog::parse` hands back a log
/// that agrees with it in every field.
pub proof fn lemma_log_round_trip(log: LegacyLog)
    requires
        reads_back(log),
    ensures
        legacy_format::log_matches(log, log_model(log)),
        legacy_format::spec_parse_log(legacy_format::log_text(log)) == Ok::<
            LogModel,
            (bool, Seq<char>),
        >(log_model(log)),
{
    lemma_log_reads_back(log);
    assert(written_model(log).header == log_model(log).header);
    assert(written_model(log) == log_model(log));
}

} // verus!
