use sandblaster::anomaly::FilterConfig;
use sandblaster::injector::engine::InjectorEvent;
use sandblaster::injector::packet::VersionedPacket;
use sandblaster::instruction::InstructionBytes;
use sandblaster::mobile::{
    last_error_length, last_instruction_code, next_line_code, optional_instruction, parse_strategy,
    start_refusal, worker_action, worker_continues, MobileScanConfig, SandblasterScanStatus,
    WorkerAction,
};
use sandblaster::result::{DisasmResult, ExecutionResult};
use sandblaster::search::strategy::SearchMode;
use sandblaster::sifter::args::{
    finish_injector_args, injector_command_text, parse_cli_args, push_resume_start, CliParseError,
};
use sandblaster::sifter::report::{
    comma, final_log, findings_text, first_opcode_byte, first_prefix_byte, format_result_row,
    render_screen, summary_text,
};
use sandblaster::sifter::stats::{push_bounded, ScanStats};
use sandblaster::summary::condense_by_stripped_prefix;
use sandblaster::target::TargetSpec;
use sandblaster::cpu::CpuMetadata;
use std::collections::VecDeque;

fn args(items: &[&str]) -> Vec<String> {
    items.iter().map(|item| item.to_string()).collect()
}

#[test]
fn parses_frontend_and_passthrough_flags() {
    let args = args(&["--unk", "--sync", "--no-ui", "--", "-P1", "-t"]);
    let config = parse_cli_args(&args).expect("args should parse");
    assert!(config.filters.search_unknown);
    assert!(config.sync);
    assert!(!config.live_ui);
    assert_eq!(config.injector_args, ["-P1", "-t"]);
}

#[test]
fn parses_input_import_path() {
    let args = args(&["--input", "ios.log", "--unk"]);
    let config = parse_cli_args(&args).expect("args should parse");
    assert_eq!(config.input_path.as_deref(), Some("ios.log"));
    assert!(config.filters.search_unknown);
    assert!(!config.live_ui);
}

#[test]
fn frontend_refuses_unknown_flags() {
    let error = parse_cli_args(&args(&["--fast"])).unwrap_err();
    assert_eq!(error, CliParseError::UnexpectedArgument("--fast".to_string()));
    assert_eq!(error.message(), "unexpected argument: --fast");
    let missing = parse_cli_args(&args(&["--input"])).unwrap_err();
    assert_eq!(missing.message(), "unexpected argument: --input requires a path");
}

#[test]
fn resume_and_final_injector_arguments() {
    let mut injector = args(&["-t"]);
    push_resume_start(&mut injector, " 90\n").expect("resume should apply");
    assert_eq!(injector, ["-t", "-i", "90"]);
    assert_eq!(
        push_resume_start(&mut injector, "91"),
        Err("--resume is incompatible with -i".to_string())
    );
    finish_injector_args(&mut injector, true);
    assert_eq!(injector, ["-t", "-i", "90", "-x", "-R"]);
    let mut ticking = args(&["-x"]);
    finish_injector_args(&mut ticking, true);
    assert_eq!(ticking, ["-x", "-R"]);
    assert_eq!(
        injector_command_text(&None, "./injector", &args(&["-t", "-R"])),
        "./injector -t -R"
    );
    assert_eq!(injector_command_text(&Some("a.log".to_string()), "x", &args(&[])), "import a.log");
}

#[test]
fn push_bounded_keeps_the_newest() {
    let mut items: VecDeque<u32> = VecDeque::new();
    for value in 0..5 {
        push_bounded(&mut items, value, 3);
    }
    assert_eq!(items, [2, 3, 4]);
}

#[test]
fn comma_groups_thousands() {
    assert_eq!(comma(0), "0");
    assert_eq!(comma(999), "999");
    assert_eq!(comma(1000), "1,000");
    assert_eq!(comma(1234567), "1,234,567");
    assert_eq!(comma(1_000_005), "1,000,005");
}

#[test]
fn opcode_and_prefix_labels() {
    assert_eq!(first_opcode_byte(&[0x66, 0xf3, 0x90]), "90");
    assert_eq!(first_opcode_byte(&[0x66]), "none");
    assert_eq!(first_prefix_byte(&[0x66, 0x90]), "66");
    assert_eq!(first_prefix_byte(&[0x90, 0x66]), "none");
}

fn packet(bytes: &[u8], length: u32, known: bool, signum: u32) -> String {
    let result = ExecutionResult {
        disasm: DisasmResult { length: 1, known },
        instruction: InstructionBytes::from_slice(bytes),
        valid: 1,
        length,
        signum,
        si_code: 1,
        fault_addr: u32::MAX,
    };
    VersionedPacket::from_execution_result(TargetSpec::linux_x86_64(), &result).to_line()
}

#[test]
fn sifting_counts_packets_and_keeps_one_finding_per_key() {
    let mut config = parse_cli_args(&args(&["--unk", "--sync", "--save", "--tick"])).expect("flags");
    config.live_ui = false;
    let mut stats = ScanStats::new();
    let blank = stats.sift_line(&config, "   ").expect("blank lines are skipped");
    assert!(blank.result.is_none());
    let comment = stats.sift_line(&config, "# note").expect("comments are skipped");
    assert!(comment.result.is_none());
    let first = stats.sift_line(&config, &packet(&[0x0f, 0xff], 2, false, 5)).expect("packet");
    assert!(first.finding);
    assert_eq!(first.last_text.as_deref(), Some("0fff"));
    assert_eq!(first.tick_text.as_deref(), Some("0fff0000000000000000000000000000"));
    assert!(first.sync_line.is_some());
    let again = stats.sift_line(&config, &packet(&[0x0f, 0xff, 0x01], 2, false, 5)).expect("packet");
    assert!(again.finding);
    assert!(again.sync_line.is_none());
    let known = stats.sift_line(&config, &packet(&[0x90], 1, true, 5)).expect("packet");
    assert!(!known.finding);
    let earlier = stats.sift_line(&config, &packet(&[0x0e], 1, false, 5)).expect("packet");
    assert!(earlier.finding);
    assert_eq!(stats.tested, 4);
    assert_eq!(stats.artifacts_found, 2);
    let keys: Vec<String> = stats.artifacts.iter().map(|r| r.executed_key_hex()).collect();
    assert_eq!(keys, ["0e", "0fff"]);
    assert_eq!(stats.recent_results.len(), 4);
    assert!(stats.sift_line(&config, "garbage").is_err());
    assert_eq!(stats.tested, 4);

    let summary = summary_text(&stats);
    assert_eq!(
        summary,
        "tested\t4\nartifacts\t2\n1\topcode=0e prefix=none signal=5 disasm=unknown\n1\topcode=0f prefix=none signal=5 disasm=unknown\n"
    );
    let findings = findings_text(&stats, "sifter --unk", "injector -R");
    assert!(findings.starts_with("# command\tsifter --unk\n# injector\tinjector -R\n"));
    assert!(findings.contains("linux-x86_64\t0e\t0e000000000000000000000000000000\t1\t1\t5\t1\tffffffff\t0\t1\n"));
    let log = final_log(&stats, "sifter", "injector", "1.000s", "0", CpuMetadata::default());
    assert_eq!(log.records.len(), 2);
    assert_eq!(log.header.arch.as_deref(), Some("linux-x86_64"));
    let screen = render_screen(&stats, 1234, "1.000s");
    assert!(screen.contains("tested:            4    artifacts:        2    rate:    1,234/s"));
    assert!(screen.contains("current: v=1  len=1  sig=5  code=1   addr=ffffffff disas_len=1 known=0 0e00"));
}

#[test]
fn low_memory_counts_every_finding() {
    let mut config = parse_cli_args(&args(&["--unk", "--low-mem"])).expect("flags");
    config.live_ui = false;
    let mut stats = ScanStats::new();
    stats.sift_line(&config, &packet(&[0x0f], 1, false, 5)).expect("packet");
    stats.sift_line(&config, &packet(&[0x0f], 1, false, 5)).expect("packet");
    assert_eq!(stats.artifacts_found, 2);
    assert!(stats.artifacts.is_empty());
    assert_eq!(stats.recent_artifacts.len(), 2);
}

#[test]
fn result_rows_align_their_columns() {
    let result = ExecutionResult {
        disasm: DisasmResult { length: 2, known: true },
        instruction: InstructionBytes::from_slice(&[0xcc]),
        valid: 1,
        length: 1,
        signum: 5,
        si_code: 128,
        fault_addr: 0,
    };
    assert_eq!(
        format_result_row(&result),
        "  1  1  5 128    2     1  cc000000000000000000000000000000"
    );
}

#[test]
fn empty_screen_waits_for_results() {
    let stats = ScanStats::new();
    let screen = render_screen(&stats, 0, "0.000s");
    assert!(screen.contains("current: waiting for injector results...\n"));
    assert!(screen.contains("recent findings\n  none yet\n"));
}

#[test]
fn condenses_prefix_variants() {
    let records = vec![
        ExecutionResult {
            disasm: DisasmResult::default(),
            instruction: InstructionBytes::from_slice(&[0xf3, 0x90]),
            valid: 1,
            length: 2,
            signum: 5,
            si_code: 1,
            fault_addr: 0,
        },
        ExecutionResult {
            disasm: DisasmResult::default(),
            instruction: InstructionBytes::from_slice(&[0x90]),
            valid: 1,
            length: 1,
            signum: 5,
            si_code: 1,
            fault_addr: 0,
        },
    ];
    let condensed = condense_by_stripped_prefix(&records, &[0xf3]);
    assert_eq!(condensed.len(), 1);
    assert!(condensed[0].prefixes.contains(&0));
    assert!(condensed[0].prefixes.contains(&0xf3));
}

#[test]
fn condensed_groups_are_ordered_and_keep_their_values() {
    let make = |bytes: &[u8], length: u32, signum: u32| ExecutionResult {
        disasm: DisasmResult::default(),
        instruction: InstructionBytes::from_slice(bytes),
        valid: 1,
        length,
        signum,
        si_code: 0,
        fault_addr: 0,
    };
    let records = vec![make(&[0x66, 0x0f, 0x0b], 3, 4), make(&[0x0e], 1, 11), make(&[0x0f, 0x0b], 2, 5)];
    let condensed = condense_by_stripped_prefix(&records, &[0x66]);
    let raws: Vec<Vec<u8>> = condensed.iter().map(|g| g.raw.clone()).collect();
    assert_eq!(raws, [vec![0x0e], vec![0x0f, 0x0b]]);
    assert_eq!(condensed[1].signums.iter().copied().collect::<Vec<u32>>(), [4, 5]);
    assert_eq!(condensed[1].lengths.iter().copied().collect::<Vec<u32>>(), [2]);
    assert_eq!(condensed[1].prefixes.iter().copied().collect::<Vec<u8>>(), [0, 0x66]);
}

#[test]
fn mobile_configuration_and_answers() {
    assert_eq!(parse_strategy(1), SearchMode::Brute);
    assert_eq!(parse_strategy(9), SearchMode::Tunnel);
    let legacy = MobileScanConfig::legacy(0);
    assert!(legacy.require_native);
    assert_eq!(legacy.queue_capacity, 5000);
    let configured = MobileScanConfig::configured(1, 2, None, None, 0, 10, 0, 0);
    assert_eq!(configured.strategy, SearchMode::Random);
    assert_eq!(configured.seed, None);
    assert_eq!(configured.queue_capacity, 5000);
    assert_eq!(optional_instruction("  ", "start_hex"), Ok(None));
    assert_eq!(
        optional_instruction("9", "start_hex"),
        Err("bad start_hex: hex input must have an even length".to_string())
    );
    assert!(worker_continues(false, 3, 0));
    assert!(!worker_continues(false, 10, 10));
    assert!(!worker_continues(true, 0, 0));
    assert_eq!(next_line_code(false, 8, true, Some(9), false), -3);
    assert_eq!(next_line_code(false, 8, true, Some(5), false), 5);
    assert_eq!(next_line_code(false, 8, true, None, true), -1);
    assert_eq!(next_line_code(true, 8, true, None, false), -2);
    let status = SandblasterScanStatus::of_scan(false, 3, 1, 2, usize::MAX, true);
    assert_eq!((status.running, status.done, status.queue_capacity, status.has_error), (1, 0, u32::MAX, 1));
    assert_eq!(SandblasterScanStatus::idle().done, 1);
    let result = ExecutionResult {
        disasm: DisasmResult { length: 4, known: true },
        instruction: InstructionBytes::from_slice(&[0x1f, 0x20, 0x03, 0xd5]),
        valid: 1,
        length: 4,
        signum: 5,
        si_code: 0,
        fault_addr: u32::MAX,
    };
    match worker_action(Ok(Some(InjectorEvent::Executed(result)))) {
        WorkerAction::Emit { line, last_hex } => {
            assert!(line.starts_with("SB1\tios\tarm64\t4\t1\t"));
            assert_eq!(last_hex, "1f2003d5");
        }
        _ => panic!("an executed result is emitted"),
    }
    assert!(matches!(worker_action(Ok(None)), WorkerAction::Finish));
}

#[test]
fn filter_defaults_are_off() {
    let config = FilterConfig::default();
    assert!(!config.search_unknown && !config.search_length);
}

#[test]
fn mobile_entry_answers_follow_buffer_and_registry() {
    assert_eq!(start_refusal(true), Some(-1));
    assert_eq!(start_refusal(false), None);
    assert_eq!(last_instruction_code(true, 64, true, 4), -2);
    assert_eq!(last_instruction_code(false, 0, true, 4), -2);
    assert_eq!(last_instruction_code(false, 64, false, 4), 0);
    assert_eq!(last_instruction_code(false, 3, true, 4), -3);
    assert_eq!(last_instruction_code(false, 4, true, 4), 4);
    assert_eq!(last_error_length(false, -1, true, 9), -2);
    assert_eq!(last_error_length(false, 8, false, 9), 0);
    assert_eq!(last_error_length(false, 8, true, 9), 8);
    assert_eq!(last_error_length(false, 16, true, 9), 9);
}
