//! The injector's top level: which backend a configuration runs on, the
//! dry-run backend, and how a parallel search is cut into worker ranges.
use vstd::prelude::*;

use crate::injector::config::{InjectorConfig, OutputMode};
use crate::injector::engine::{self, ExecutionBackend, InjectorEvent};
use crate::injector::packet::{self, TextReport, VersionedPacket};
use crate::result::ExecutionResult;
use crate::injector::observation::BackendObservation;
use crate::injector::range::split_search_range;
use crate::instruction::{self, InstructionBytes, RAW_REPORT_INSN_BYTES};
use crate::search::strategy::{SearchMode, SearchRange};
use crate::target::{self, Architecture, Platform};
use crate::text;
use crate::text::{chars_eq, chars_of, push_str, starts_with};

verus! {

broadcast use InstructionBytes::lemma_shape;

// ---------------------------------------------------------------------------
// Worker arguments
// ---------------------------------------------------------------------------

/// `p` is a prefix of `a`.
pub open spec fn is_prefix_of(p: Seq<char>, a: Seq<char>) -> bool {
    p.len() <= a.len() && a.take(p.len() as int) == p
}

/// `a` is one of `flags` with its value attached, as in `-j4`.
pub open spec fn is_compact_flag(a: Seq<char>, flags: Seq<Seq<char>>) -> bool {
    exists|k: int| 0 <= k < flags.len() && is_prefix_of(flags[k], a) && a.len() > (#[trigger] flags[k]).len()
}

/// The arguments from `i` on without `flags` and their values, whether
/// given as two arguments or as one.
pub open spec fn strip_from(args: Seq<Seq<char>>, i: nat, flags: Seq<Seq<char>>) -> Seq<Seq<char>>
    decreases args.len() + 1 - i,
{
    if i >= args.len() {
        Seq::empty()
    } else if flags.contains(args[i as int]) {
        strip_from(args, i + 2, flags)
    } else if is_compact_flag(args[i as int], flags) {
        strip_from(args, i + 1, flags)
    } else {
        seq![args[i as int]] + strip_from(args, i + 1, flags)
    }
}

/// Whether `a` is one of `flags`, or one of them with its value attached.
fn flag_kind(a: &[char], flags: &[&str]) -> (r: (bool, bool))
    ensures
        r.0 == flags@.map_values(|f: &str| f@).contains(a@),
        !r.0 ==> r.1 == is_compact_flag(a@, flags@.map_values(|f: &str| f@)),
{
    let ghost fs = flags@.map_values(|f: &str| f@);
    let mut k: usize = 0;
    while k < flags.len()
        invariant
            k <= flags.len(),
            fs == flags@.map_values(|f: &str| f@),
            forall|j: int| 0 <= j < k ==> fs[j] != a@,
        decreases flags.len() - k,
    {
        if chars_eq(a, flags[k]) {
            assert(fs[k as int] == a@);
            return (true, false);
        }
        k = k + 1;
    }
    let mut j: usize = 0;
    while j < flags.len()
        invariant
            j <= flags.len(),
            fs == flags@.map_values(|f: &str| f@),
            !fs.contains(a@),
            forall|q: int| 0 <= q < j ==> !(is_prefix_of(fs[q], a@) && a@.len() > (#[trigger] fs[q]).len()),
        decreases flags.len() - j,
    {
        let f = chars_of(flags[j]);
        if starts_with(a, flags[j]) && a.len() > f.len() {
            assert(is_prefix_of(fs[j as int], a@) && a@.len() > fs[j as int].len());
            return (false, true);
        }
        j = j + 1;
    }
    (false, false)
}

/// `args` without `flags` and their values.
pub fn strip_value_flags(args: &[String], flags: &[&str]) -> (r: Vec<String>)
    ensures
        text::views(r@) == strip_from(text::views(args@), 0, flags@.map_values(|f: &str| f@)),
{
    let ghost vs = text::views(args@);
    let ghost fs = flags@.map_values(|f: &str| f@);
    let mut out: Vec<String> = Vec::new();
    let mut index: usize = 0;
    while index < args.len()
        invariant
            index <= args.len(),
            vs == text::views(args@),
            fs == flags@.map_values(|f: &str| f@),
            strip_from(vs, 0, fs) == text::views(out@) + strip_from(vs, index as nat, fs),
        decreases args.len() - index,
    {
        let a = chars_of(args[index].as_str());
        assert(a@ == vs[index as int]);
        let (exact, compact) = flag_kind(a.as_slice(), flags);
        if exact {
            let ghost i0 = index as nat;
            index = if args.len() - index >= 2 {
                index + 2
            } else {
                args.len()
            };
            assert(strip_from(vs, i0 + 2, fs) == strip_from(vs, index as nat, fs));
        } else if compact {
            index = index + 1;
        } else {
            let ghost before = text::views(out@);
            out.push(args[index].clone());
            assert(text::views(out@) =~= before.push(vs[index as int]));
            index = index + 1;
        }
    }
    assert(strip_from(vs, index as nat, fs) =~= Seq::<Seq<char>>::empty());
    assert(text::views(out@) + Seq::<Seq<char>>::empty() =~= text::views(out@));
    out
}

/// The arguments of a worker for `range`: the original ones without their
/// range and job flags, then `--worker -j 1 -i <start> -e <end>`.
pub open spec fn spec_worker_args(original: Seq<Seq<char>>, range: SearchRange) -> Seq<Seq<char>> {
    strip_from(original, 0, seq!["-i"@, "-e"@, "-j"@]) + seq![
        "--worker"@,
        "-j"@,
        "1"@,
        "-i"@,
        instruction::hex_pairs(range.start.spec_specified()),
        "-e"@,
        instruction::hex_pairs(range.end.spec_specified()),
    ]
}

pub fn worker_args(original_args: &[String], range: &SearchRange) -> (r: Vec<String>)
    ensures
        text::views(r@) == spec_worker_args(text::views(original_args@), *range),
{
    let flags: [&str; 3] = ["-i", "-e", "-j"];
    let mut args = strip_value_flags(original_args, flags.as_slice());
    assert(flags@.map_values(|f: &str| f@) =~= seq!["-i"@, "-e"@, "-j"@]);
    let ghost before = text::views(args@);
    args.push(String::from_str("--worker"));
    args.push(String::from_str("-j"));
    args.push(String::from_str("1"));
    args.push(String::from_str("-i"));
    args.push(range.start.compact_hex());
    args.push(String::from_str("-e"));
    args.push(range.end.compact_hex());
    assert(text::views(args@) =~= spec_worker_args(text::views(original_args@), *range));
    args
}

/// `total` is the range a configuration searches.
pub open spec fn total_range_of(config: InjectorConfig, total: SearchRange) -> bool {
    &&& match config.start_instruction {
        Some(s) => total.start == s,
        None => total.start.spec_bytes() == Seq::new(16, |i: int| 0u8) && total.start.spec_len() == 0,
    }
    &&& match config.end_instruction {
        Some(e) => total.end == e,
        None => total.end.spec_bytes() == Seq::new(16, |i: int| 0xffu8) && total.end.spec_len()
            == instruction::clamp16(config.target.max_instruction_len as nat),
    }
}

/// `v` is `total` cut on `rb` bytes (at most 16), or `total` alone when it
/// is empty.
pub open spec fn split_into(v: Seq<SearchRange>, total: SearchRange, rb: nat) -> bool {
    if instruction::lex_lt(total.start.spec_bytes(), total.end.spec_bytes()) {
        crate::injector::range::is_split_of(v, total, if rb < 16 { rb } else { 16 })
    } else {
        v == seq![total]
    }
}

/// The worker ranges of a parallel search: only brute and tunnel searches
/// have a finite range to cut. The range runs from the start (nothing
/// specified when absent) to the end (`0xff` bytes up to the target's
/// longest instruction when absent), cut on `max(range_bytes, 1)` bytes.
pub fn supervisor_ranges(config: &InjectorConfig) -> (r: Result<Vec<SearchRange>, String>)
    ensures
        match r {
            Err(e) => !(config.mode == SearchMode::Brute || config.mode == SearchMode::Tunnel)
                && e@ == "-j is only supported for finite brute and tunnel searches; use -j 1 for random or driven mode"@,
            Ok(v) => (config.mode == SearchMode::Brute || config.mode == SearchMode::Tunnel) && exists|
                total: SearchRange,
            | total_range_of(*config, total) && split_into(
                v@,
                total,
                if config.range_bytes < 1 {
                    1
                } else {
                    config.range_bytes as nat
                },
            ),
        },
{
    if !(matches!(config.mode, SearchMode::Brute) || matches!(config.mode, SearchMode::Tunnel)) {
        return Err(
            String::from_str(
                "-j is only supported for finite brute and tunnel searches; use -j 1 for random or driven mode",
            ),
        );
    }
    let start = match config.start_instruction {
        Some(s) => s,
        None => InstructionBytes::default(),
    };
    let end = match config.end_instruction {
        Some(e) => e,
        None => InstructionBytes::new([0xffu8; RAW_REPORT_INSN_BYTES], config.target.max_instruction_len),
    };
    let range_bytes = if config.range_bytes < 1 {
        1
    } else {
        config.range_bytes
    };
    let total = SearchRange { start, end };
    assert(start.spec_bytes() =~= Seq::new(16, |i: int| 0u8) || config.start_instruction is Some);
    assert(end.spec_bytes() =~= Seq::new(16, |i: int| 0xffu8) || config.end_instruction is Some);
    let ranges = split_search_range(total, range_bytes);
    assert(total_range_of(*config, total));
    Ok(ranges)
}

// ---------------------------------------------------------------------------
// Backends
// ---------------------------------------------------------------------------

/// Where a configuration runs.
#[derive(Clone, Copy, Debug, PartialEq, Eq, Structural)]
pub enum BackendPlan {
    /// No execution: the dry-run backend, with the given fixed length.
    DryRun(Architecture),
    LinuxX86,
    AndroidArm64,
    /// iOS runs in the app, not in this binary.
    IosApp,
    Unsupported,
}

/// The backend of a configuration: dry runs first, then by platform and
/// architecture.
pub fn backend_plan(config: &InjectorConfig) -> (r: BackendPlan)
    ensures
        r == (if config.dry_run {
            BackendPlan::DryRun(config.target.architecture)
        } else {
            match (config.target.platform, config.target.architecture) {
                (Platform::Linux, Architecture::X86_64) => BackendPlan::LinuxX86,
                (Platform::Android, Architecture::Arm64) => BackendPlan::AndroidArm64,
                (Platform::Ios, Architecture::Arm64) => BackendPlan::IosApp,
                _ => BackendPlan::Unsupported,
            }
        }),
{
    if config.dry_run {
        return BackendPlan::DryRun(config.target.architecture);
    }
    match (config.target.platform, config.target.architecture) {
        (Platform::Linux, Architecture::X86_64) => BackendPlan::LinuxX86,
        (Platform::Android, Architecture::Arm64) => BackendPlan::AndroidArm64,
        (Platform::Ios, Architecture::Arm64) => BackendPlan::IosApp,
        _ => BackendPlan::Unsupported,
    }
}

/// A backend that executes nothing and reports a clean trap: the fixed
/// length when the target has one, else the specified length (at least 1).
#[derive(Clone, Copy, Debug, PartialEq, Eq, Structural)]
pub struct DryRunBackend {
    pub fixed_len: Option<usize>,
}

impl DryRunBackend {
    /// What a dry run reports for `instruction`.
    pub fn observe(&self, instruction: &InstructionBytes) -> (r: BackendObservation)
        ensures
            r.valid == 1,
            r.length == (match self.fixed_len {
                Some(n) => n as u32,
                None => if instruction.spec_len() < 1 {
                    1u32
                } else {
                    instruction.spec_len() as u32
                },
            }),
            r.signum == 5,
            r.si_code == 0,
            r.fault_addr == u32::MAX,
    {
        let length: usize = match self.fixed_len {
            Some(n) => n,
            None => {
                let n = instruction.specified_len();
                if n < 1 {
                    1
                } else {
                    n
                }
            },
        };
        BackendObservation {
            valid: 1,
            length: length as u32,
            signum: 5,
            si_code: 0,
            fault_addr: u32::MAX,
        }
    }
}

impl ExecutionBackend for DryRunBackend {
    /// Always succeeds with the observation of `observe`.
    fn execute(&mut self, instruction: &InstructionBytes) -> (r: Result<BackendObservation, String>)
        ensures
            *final(self) == *old(self),
            r matches Ok(o) && o.valid == 1 && o.length == (match old(self).fixed_len {
                Some(n) => n as u32,
                None => if instruction.spec_len() < 1 {
                    1u32
                } else {
                    instruction.spec_len() as u32
                },
            }) && o.signum == 5 && o.si_code == 0 && o.fault_addr == u32::MAX,
    {
        Ok(self.observe(instruction))
    }
}

/// What an Android child process observed: killed by `signal`, or exited.
pub fn child_observation(signaled: bool, signal: u32) -> (r: BackendObservation)
    ensures
        r.valid == 1,
        r.length == 4,
        r.signum == (if signaled {
            signal
        } else {
            0
        }),
        r.si_code == 0,
        r.fault_addr == u32::MAX,
{
    BackendObservation {
        valid: 1,
        length: 4,
        signum: if signaled {
            signal
        } else {
            0
        },
        si_code: 0,
        fault_addr: u32::MAX,
    }
}

// ---------------------------------------------------------------------------
// Output
// ---------------------------------------------------------------------------

/// A tick is shown every 65536 results.
pub const TICK_MASK: u64 = 0xffff;

/// What the injector prints for an event.
pub struct EventOutput {
    /// The packet line or text report, for standard output.
    pub line: String,
    /// The tick line, for standard error.
    pub tick: Option<String>,
    /// Why the candidate was skipped, for standard error in text mode.
    pub skip_note: Option<String>,
}

/// The output line of a result: the packet line in raw mode, the text
/// report in text mode.
pub open spec fn result_line(config: InjectorConfig, r: ExecutionResult) -> Seq<char> {
    match config.output_mode {
        OutputMode::Raw => packet::packet_line(config.target, r),
        OutputMode::Text => packet::report_line(r),
    }
}

/// The output of the `emitted`-th event (counting from 1).
pub fn event_output(config: &InjectorConfig, event: &InjectorEvent, emitted: u64) -> (r: EventOutput)
    ensures
        r.line@ == result_line(*config, engine::event_result(*event)),
        match r.tick {
            Some(t) => config.show_tick && emitted & TICK_MASK == 0 && t@ == "t: "@
                + instruction::hex_pairs(engine::event_result(*event).instruction.spec_bytes()),
            None => !(config.show_tick && emitted & TICK_MASK == 0),
        },
        match r.skip_note {
            Some(n) => config.output_mode == OutputMode::Text && (event matches InjectorEvent::Skipped(
                _,
                reason,
            ) && n@ == "skipped candidate: "@ + reason@),
            None => !(config.output_mode == OutputMode::Text && event is Skipped),
        },
{
    let result = match event {
        InjectorEvent::Executed(r) => r,
        InjectorEvent::Skipped(r, _) => r,
    };
    let line = match config.output_mode {
        OutputMode::Raw => VersionedPacket::from_execution_result(config.target, result).to_line(),
        OutputMode::Text => TextReport::from_execution_result(result).0,
    };
    let tick = if config.show_tick && emitted & TICK_MASK == 0 {
        let mut t = String::new();
        push_str(&mut t, "t: ");
        let hex = result.instruction.full_hex();
        push_str(&mut t, hex.as_str());
        Some(t)
    } else {
        None
    };
    let skip_note = match event {
        InjectorEvent::Skipped(_, reason) => if matches!(config.output_mode, OutputMode::Text) {
            let mut n = String::new();
            push_str(&mut n, "skipped candidate: ");
            push_str(&mut n, reason);
            Some(n)
        } else {
            None
        },
        InjectorEvent::Executed(_) => None,
    };
    EventOutput { line, tick, skip_note }
}


/// What the supervisor does next.
#[derive(Clone, Copy, Debug, PartialEq, Eq, Structural)]
pub enum SupervisorAction {
    /// Start a worker for the range of this index.
    Spawn(usize),
    /// Wait for the oldest running worker.
    WaitOldest,
    /// Every worker has been started and has finished.
    Finish,
}

/// The supervisor's next step, with the first `next_range` of `total`
/// ranges handed out and `active` workers running: start the next range
/// while fewer than `jobs` workers run, else wait for the oldest, and finish
/// once every range was handed out and no worker runs.
pub fn supervisor_step(next_range: usize, total: usize, active: usize, jobs: usize) -> (r: SupervisorAction)
    requires
        jobs >= 1,
    ensures
        r == (if next_range < total && active < jobs {
            SupervisorAction::Spawn(next_range)
        } else if active > 0 {
            SupervisorAction::WaitOldest
        } else {
            SupervisorAction::Finish
        }),
{
    if next_range < total && active < jobs {
        SupervisorAction::Spawn(next_range)
    } else if active > 0 {
        SupervisorAction::WaitOldest
    } else {
        SupervisorAction::Finish
    }
}

} // verus!
