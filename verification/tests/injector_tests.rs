use std::collections::VecDeque;

use sandblaster::disasm::{
    decode_with_backend, Arm64FixedDisassembler, Arm64HeuristicDisassembler, DecodeError,
    DecodeOutput, DisasmBackend, IcedX86Disassembler,
};
use sandblaster::injector::config::{InjectorConfig, InjectorParseError, OutputMode};
use sandblaster::injector::engine::{ExecutionBackend, InjectorEngine, InjectorEvent};
use sandblaster::injector::fault::{
    normalize_fault_addr, FaultModel, FaultObservation, ProbeContext, TrapFlagPreamble,
    JMP_LENGTH, TF, UD2_SIZE,
};
use sandblaster::injector::observation::BackendObservation;
use sandblaster::injector::policy::{default_opcode_blacklist, violates_blacklist, PrefixPolicy};
use sandblaster::injector::range::split_search_range;
use sandblaster::injector::supervisor::{
    backend_plan, event_output, strip_value_flags, supervisor_ranges, supervisor_step, worker_args,
    BackendPlan, DryRunBackend, SupervisorAction,
};
use sandblaster::instruction::InstructionBytes;
use sandblaster::search::strategy::{SearchMode, SearchRange};
use sandblaster::target::{Architecture, TargetSpec};

fn args(items: &[&str]) -> Vec<String> {
    items.iter().map(|item| item.to_string()).collect()
}

#[test]
fn iced_decodes_known_instruction_length() {
    let decoded = IcedX86Disassembler
        .decode_first(&InstructionBytes::from_slice(&[0x90]))
        .expect("decode should succeed");

    assert!(decoded.known);
    assert_eq!(decoded.length, 1);
}

#[test]
fn iced_reports_unknown_instruction_like_capstone_raw_path() {
    let decoded = IcedX86Disassembler
        .decode_first(&InstructionBytes::from_slice(&[0x82]))
        .expect("decode should succeed");

    assert!(!decoded.known);
    assert_eq!(decoded.length, 0);
}

#[test]
fn arm64_fixed_width_reports_four_byte_instructions() {
    let decoded = Arm64FixedDisassembler
        .decode_first(&InstructionBytes::from_slice(&[0x1f, 0x20, 0x03, 0xd5]))
        .expect("decode should succeed");

    assert!(decoded.known);
    assert_eq!(decoded.length, 4);
}

#[test]
fn arm64_heuristic_marks_permanent_undefined_as_unknown() {
    let decoded = Arm64HeuristicDisassembler
        .decode_first(&InstructionBytes::from_slice(&[0x00, 0x00, 0x00, 0x00]))
        .expect("decode should succeed");

    assert!(!decoded.known);
    assert_eq!(decoded.length, 0);
}

#[test]
fn arm64_heuristic_marks_nop_as_known() {
    let decoded = Arm64HeuristicDisassembler
        .decode_first(&InstructionBytes::from_slice(&[0x1f, 0x20, 0x03, 0xd5]))
        .expect("decode should succeed");

    assert!(decoded.known);
    assert_eq!(decoded.length, 4);
}

#[test]
fn iced_lowercases_the_mnemonic_of_a_longer_instruction() {
    let decoded = IcedX86Disassembler
        .decode_first(&InstructionBytes::from_slice(&[0x48, 0x89, 0xd8]))
        .expect("decode should succeed");
    assert!(decoded.known);
    assert_eq!(decoded.length, 3);
    assert_eq!(decoded.mnemonic, "mov");
}

struct FakeDisassembler;

impl DisasmBackend for FakeDisassembler {
    fn name(&self) -> &'static str {
        "fake"
    }

    fn decode_first(&self, instruction: &InstructionBytes) -> Result<DecodeOutput, DecodeError> {
        Ok(DecodeOutput {
            mnemonic: "db".to_string(),
            operands: instruction.compact_hex(),
            length: instruction.specified_len() as u32,
            known: true,
        })
    }
}

struct FakeBackend;

impl ExecutionBackend for FakeBackend {
    fn execute(&mut self, instruction: &InstructionBytes) -> Result<BackendObservation, String> {
        Ok(BackendObservation {
            valid: 1,
            length: instruction.specified_len() as u32,
            signum: 5,
            si_code: 1,
            fault_addr: u32::MAX,
        })
    }
}

struct FailingBackend;

impl ExecutionBackend for FailingBackend {
    fn execute(&mut self, _instruction: &InstructionBytes) -> Result<BackendObservation, String> {
        Err("backend unavailable".to_string())
    }
}

fn driven_config() -> InjectorConfig {
    let mut config = InjectorConfig::with_target(TargetSpec::linux_x86_64());
    config.mode = SearchMode::Driven;
    config
}

#[test]
fn emits_skipped_event_for_blacklist() {
    let mut config = driven_config();
    config.blacklists = vec![InstructionBytes::from_slice(&[0x90])];
    let candidates: VecDeque<InstructionBytes> =
        std::iter::once(InstructionBytes::from_slice(&[0x90])).collect();
    let mut engine =
        InjectorEngine::new_with_driven_candidates(FakeDisassembler, FakeBackend, &config, candidates);
    let event = engine.next_event().expect("engine should succeed");
    assert!(matches!(
        event,
        Some(InjectorEvent::Skipped(_, "user_blacklist"))
    ));
}

#[test]
fn emits_executed_event_for_clean_instruction() {
    let config = driven_config();
    let candidates: VecDeque<InstructionBytes> =
        std::iter::once(InstructionBytes::from_slice(&[0x90])).collect();
    let mut engine =
        InjectorEngine::new_with_driven_candidates(FakeDisassembler, FakeBackend, &config, candidates);
    let event = engine.next_event().expect("engine should succeed");
    assert!(matches!(event, Some(InjectorEvent::Executed(_))));
    assert_eq!(engine.next_event(), Ok(None));
}

#[test]
fn engine_hands_back_backend_errors_and_skips_prefix_violations() {
    let config = driven_config();
    let candidates: VecDeque<InstructionBytes> = [
        InstructionBytes::from_slice(&[0x66, 0x90]),
        InstructionBytes::from_slice(&[0x90]),
    ]
    .into_iter()
    .collect();
    let mut engine =
        InjectorEngine::new_with_driven_candidates(FakeDisassembler, FailingBackend, &config, candidates);
    match engine.next_event() {
        Ok(Some(InjectorEvent::Skipped(result, reason))) => {
            assert_eq!(reason, "prefix violation");
            assert_eq!(result.valid, 0);
            assert_eq!(result.fault_addr, 0);
        }
        other => panic!("expected a skipped candidate, got {other:?}"),
    }
    assert_eq!(engine.next_event(), Err("backend unavailable".to_string()));
}

#[test]
fn engine_runs_a_brute_range_in_order() {
    let mut config = InjectorConfig::with_target(TargetSpec::linux_x86_64());
    config.mode = SearchMode::Brute;
    config.brute_depth = 1;
    config.start_instruction = Some(InstructionBytes::from_slice(&[0x90]));
    config.end_instruction = Some(InstructionBytes::from_slice(&[0x92]));
    let mut engine = InjectorEngine::new(FakeDisassembler, FakeBackend, &config);
    let mut seen = Vec::new();
    while let Ok(Some(event)) = engine.next_event() {
        match event {
            InjectorEvent::Executed(result) => seen.push(result.instruction.compact_hex()),
            InjectorEvent::Skipped(result, _) => seen.push(format!("skip {}", result.instruction.compact_hex())),
        }
    }
    assert_eq!(seen, ["90", "91"]);
}

#[test]
fn parses_reference_flags() {
    let args = args(&["-t", "-R", "-s", "7", "-j", "4"]);
    let config = InjectorConfig::parse_args(&args, TargetSpec::linux_x86_64())
        .expect("injector args should parse");
    assert_eq!(config.mode, SearchMode::Tunnel);
    assert_eq!(config.output_mode, OutputMode::Raw);
    assert_eq!(config.seed, Some(7));
    assert_eq!(config.jobs, 4);
}

#[test]
fn injector_flag_errors() {
    let host = TargetSpec::linux_x86_64();
    let missing = InjectorConfig::parse_args(&args(&["-B"]), host).unwrap_err();
    assert_eq!(missing, InjectorParseError::MissingValue("-B"));
    assert_eq!(missing.message(), "missing value for -B");
    let invalid = InjectorConfig::parse_args(&args(&["-j", "many"]), host).unwrap_err();
    assert_eq!(invalid.message(), "invalid value for -j: many");
    let bad_hex = InjectorConfig::parse_args(&args(&["-i", "9"]), host).unwrap_err();
    assert_eq!(
        bad_hex.message(),
        "invalid value for -i: hex input must have an even length"
    );
    let unknown = InjectorConfig::parse_args(&args(&["-q"]), host).unwrap_err();
    assert_eq!(unknown.message(), "unexpected argument: -q");
}

#[test]
fn injector_flags_set_their_fields() {
    let host = TargetSpec::android_arm64();
    let config = InjectorConfig::parse_args(
        &args(&["-b", "-x", "-0", "-D", "-N", "-B", "3", "-P", "2", "-c", "1", "-l", "2",
            "-i", "0f", "-e", "10", "-X", "0f0b", "-X", "cc", "--dry-run", "--worker", "--help"]),
        host,
    )
    .expect("flags should parse");
    assert_eq!(config.target, host);
    assert_eq!(config.mode, SearchMode::Brute);
    assert!(config.show_tick && config.allow_null_access && config.allow_duplicate_prefixes);
    assert!(!config.nx_support && config.dry_run && config.worker);
    assert_eq!((config.brute_depth, config.max_prefix, config.core, config.range_bytes), (3, 2, Some(1), 2));
    assert_eq!(config.start_instruction.map(|i| i.compact_hex()), Some("0f".to_string()));
    assert_eq!(config.end_instruction.map(|i| i.compact_hex()), Some("10".to_string()));
    assert_eq!(config.blacklists.len(), 2);
    assert_eq!(config.output_mode, OutputMode::Text);
}

#[test]
fn disasm_adapter_preserves_known_and_length() {
    struct TestDisassembler;

    impl DisasmBackend for TestDisassembler {
        fn name(&self) -> &'static str {
            "test"
        }

        fn decode_first(&self, _instruction: &InstructionBytes) -> Result<DecodeOutput, DecodeError> {
            Ok(DecodeOutput {
                mnemonic: "nop".to_string(),
                operands: String::new(),
                length: 1,
                known: true,
            })
        }
    }

    let decoded = decode_with_backend(&TestDisassembler, &InstructionBytes::from_slice(&[0x90]));
    assert_eq!(decoded.length, 1);
    assert!(decoded.known);
}

#[test]
fn infers_fault_length_like_reference_code() {
    let model = FaultModel::default();
    let packet = 0x1000_usize;
    assert_eq!(model.infer_instruction_length(0x1005, packet, 2), 3);
    assert_eq!(model.infer_instruction_length(0x0fff, packet, 2), JMP_LENGTH);
    assert_eq!(model.infer_instruction_length(0x2000, packet, 2), JMP_LENGTH);
}

#[test]
fn stops_length_probe_when_fault_moves_off_page_end() {
    let model = FaultModel::default();
    assert!(!model.should_stop_length_probe(0x2000, 0x2000));
    assert!(model.should_stop_length_probe(0x1fff, 0x2000));
}

#[test]
fn translates_fault_observation_to_backend_result() {
    let model = FaultModel::default();
    let probe = ProbeContext {
        packet_start: 0x1000,
        page_end: 0x2000,
        preamble_length: 2,
        probe_length: 4,
    };
    let observation = FaultObservation {
        signum: 11,
        si_code: 2,
        fault_addr: 0x2000,
        fault_ip: 0x1005,
    };
    let result = probe.infer_fault_result(&model, observation);
    assert_eq!(result.length, 3);
    assert_eq!(result.signum, 11);
    assert_eq!(result.fault_addr, 0x2000);
}

#[test]
fn normalizes_non_memory_fault_addresses() {
    assert_eq!(normalize_fault_addr(5, 0x1234), u32::MAX);
    assert_eq!(normalize_fault_addr(11, 0x1234), 0x1234);
    assert_eq!(normalize_fault_addr(7, 0x4567), 0x4567);
}

#[test]
fn probe_context_decides_whether_to_continue_length_probing() {
    let model = FaultModel::default();
    let probe = ProbeContext {
        packet_start: 0x1000,
        page_end: 0x2000,
        preamble_length: 2,
        probe_length: 4,
    };
    let continue_result = BackendObservation {
        valid: 1,
        length: 4,
        signum: 11,
        si_code: 1,
        fault_addr: 0x2000,
    };
    let stop_result = BackendObservation {
        fault_addr: 0x1fff,
        ..continue_result
    };
    assert!(probe.should_continue_probing(&model, &continue_result));
    assert!(!probe.should_continue_probing(&model, &stop_result));
}

#[test]
fn exposes_trap_flag_preamble_constants() {
    let preamble = TrapFlagPreamble::default();
    assert_eq!(preamble.trap_flag_mask, TF);
    assert_eq!(preamble.ud2_size, UD2_SIZE);
}

#[test]
fn detects_blacklisted_opcode() {
    let instruction = InstructionBytes::from_slice(&[0x0f, 0x34]);
    let reason = violates_blacklist(&instruction, &default_opcode_blacklist(), &[], true);
    assert_eq!(reason, Some("sysenter"));
}

#[test]
fn blacklisted_opcode_behind_prefixes_is_found() {
    let instruction = InstructionBytes::from_slice(&[0x66, 0x0f, 0xa1]);
    let reason = violates_blacklist(&instruction, &default_opcode_blacklist(), &[], true);
    assert_eq!(reason, Some("pop fs"));
    let clean = InstructionBytes::from_slice(&[0x90]);
    assert_eq!(violates_blacklist(&clean, &default_opcode_blacklist(), &[], true), None);
}

#[test]
fn rejects_duplicate_prefixes_when_disabled() {
    let policy = PrefixPolicy {
        max_prefix: 4,
        allow_duplicate_prefixes: false,
    };
    let instruction = InstructionBytes::from_slice(&[0xf3, 0xf3, 0x90]);
    assert_eq!(policy.validate(&instruction, true), Err("prefix violation"));
}

#[test]
fn split_range_uses_exclusive_end() {
    let ranges = split_search_range(
        SearchRange {
            start: InstructionBytes::from_slice(&[0x00]),
            end: InstructionBytes::from_slice(&[0x03]),
        },
        1,
    );
    let rendered: Vec<(String, String)> = ranges
        .iter()
        .map(|range| (range.start.compact_hex(), range.end.compact_hex()))
        .collect();
    assert_eq!(
        rendered,
        [
            ("00".to_string(), "01".to_string()),
            ("01".to_string(), "02".to_string()),
            ("02".to_string(), "03".to_string())
        ]
    );
}

#[test]
fn zero_range_bytes_keeps_single_range() {
    let range = SearchRange {
        start: InstructionBytes::from_slice(&[0x90]),
        end: InstructionBytes::from_slice(&[0x91]),
    };
    assert_eq!(split_search_range(range, 0), [range]);
}

#[test]
fn worker_args_replace_range_and_jobs() {
    let original = args(&["-t", "-j4", "-i00", "-e", "ff"]);
    let range = SearchRange {
        start: InstructionBytes::from_slice(&[0x10]),
        end: InstructionBytes::from_slice(&[0x11]),
    };
    let args = worker_args(&original, &range);
    assert_eq!(args, ["-t", "--worker", "-j", "1", "-i", "10", "-e", "11"]);
}

#[test]
fn strip_value_flags_handles_split_and_compact_forms() {
    let args = args(&["-j", "4", "-l1", "-P1"]);
    assert_eq!(strip_value_flags(&args, &["-j", "-l"]), ["-P1"]);
}

#[test]
fn strip_value_flags_drops_a_trailing_flag() {
    let args = args(&["-t", "-j"]);
    assert_eq!(strip_value_flags(&args, &["-j"]), ["-t"]);
}

#[test]
fn supervisor_cuts_finite_searches_only() {
    let mut config = InjectorConfig::with_target(TargetSpec::linux_x86_64());
    config.mode = SearchMode::Random;
    assert!(supervisor_ranges(&config).is_err());
    config.mode = SearchMode::Brute;
    config.start_instruction = Some(InstructionBytes::from_slice(&[0x00]));
    config.end_instruction = Some(InstructionBytes::from_slice(&[0x02]));
    let ranges = supervisor_ranges(&config).expect("brute ranges");
    assert_eq!(ranges.len(), 2);
    assert_eq!(ranges[1].end.compact_hex(), "02");
}

#[test]
fn backend_plan_follows_dry_run_then_target() {
    let mut config = InjectorConfig::with_target(TargetSpec::ios_arm64());
    assert_eq!(backend_plan(&config), BackendPlan::IosApp);
    config.dry_run = true;
    assert_eq!(backend_plan(&config), BackendPlan::DryRun(Architecture::Arm64));
    let linux = InjectorConfig::with_target(TargetSpec::linux_x86_64());
    assert_eq!(backend_plan(&linux), BackendPlan::LinuxX86);
}

#[test]
fn dry_run_reports_fixed_or_specified_length() {
    let fixed = DryRunBackend { fixed_len: Some(4) };
    let observed = fixed.observe(&InstructionBytes::from_slice(&[0x90]));
    assert_eq!((observed.valid, observed.length, observed.signum), (1, 4, 5));
    let free = DryRunBackend { fixed_len: None };
    assert_eq!(free.observe(&InstructionBytes::from_slice(&[])).length, 1);
    assert_eq!(free.observe(&InstructionBytes::from_slice(&[1, 2, 3])).length, 3);
}

#[test]
fn event_output_prints_packets_ticks_and_skips() {
    let mut config = InjectorConfig::with_target(TargetSpec::linux_x86_64());
    config.output_mode = OutputMode::Raw;
    config.show_tick = true;
    let result = BackendObservation { valid: 1, length: 1, signum: 5, si_code: 0, fault_addr: u32::MAX }
        .into_execution_result(InstructionBytes::from_slice(&[0x90]), Default::default());
    let out = event_output(&config, &InjectorEvent::Executed(result), 0x10000);
    assert!(out.line.starts_with("SB1\tlinux\tx86_64\t"));
    assert_eq!(out.tick.as_deref(), Some("t: 90000000000000000000000000000000"));
    assert!(out.skip_note.is_none());
    config.output_mode = OutputMode::Text;
    let skipped = event_output(&config, &InjectorEvent::Skipped(result, "sysenter"), 3);
    assert!(skipped.tick.is_none());
    assert_eq!(skipped.skip_note.as_deref(), Some("skipped candidate: sysenter"));
}

#[test]
fn skipped_event_carries_decoder_answer_and_needs_no_backend() {
    let mut config = driven_config();
    config.blacklists = vec![InstructionBytes::from_slice(&[0x90])];
    let candidates: VecDeque<InstructionBytes> =
        std::iter::once(InstructionBytes::from_slice(&[0x90])).collect();
    let mut engine =
        InjectorEngine::new_with_driven_candidates(FakeDisassembler, FailingBackend, &config, candidates);
    match engine.next_event() {
        Ok(Some(InjectorEvent::Skipped(result, "user_blacklist"))) => {
            assert_eq!(result.instruction, InstructionBytes::from_slice(&[0x90]));
            assert_eq!((result.disasm.length, result.disasm.known), (1, true));
            assert_eq!((result.valid, result.length, result.signum), (0, 0, 0));
        },
        other => panic!("expected a skipped event, got {other:?}"),
    }
    assert_eq!(engine.next_event(), Ok(None));
}

#[test]
fn supervisor_spawns_up_to_jobs_then_waits_in_order() {
    assert_eq!(supervisor_step(0, 3, 0, 2), SupervisorAction::Spawn(0));
    assert_eq!(supervisor_step(1, 3, 1, 2), SupervisorAction::Spawn(1));
    assert_eq!(supervisor_step(2, 3, 2, 2), SupervisorAction::WaitOldest);
    assert_eq!(supervisor_step(2, 3, 1, 2), SupervisorAction::Spawn(2));
    assert_eq!(supervisor_step(3, 3, 2, 2), SupervisorAction::WaitOldest);
    assert_eq!(supervisor_step(3, 3, 0, 2), SupervisorAction::Finish);
}

#[test]
fn engine_blacklists_defaults_then_configured_entries() {
    let mut config = driven_config();
    config.blacklists = vec![InstructionBytes::from_slice(&[0x90]), InstructionBytes::from_slice(&[0xcc])];
    let candidates: VecDeque<InstructionBytes> =
        [InstructionBytes::from_slice(&[0xcc]), InstructionBytes::from_slice(&[0x0f, 0x05])]
            .into_iter()
            .collect();
    let mut engine =
        InjectorEngine::new_with_driven_candidates(FakeDisassembler, FailingBackend, &config, candidates);
    assert!(matches!(engine.next_event(), Ok(Some(InjectorEvent::Skipped(_, "user_blacklist")))));
    assert!(matches!(engine.next_event(), Ok(Some(InjectorEvent::Skipped(_, "syscall")))));
    assert_eq!(engine.next_event(), Ok(None));
}
