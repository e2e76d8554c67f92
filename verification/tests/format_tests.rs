use sandblaster::injector::observation::BackendObservation;
use sandblaster::injector::packet::{RawInjectorPacket, TextReport, VersionedPacket};
use sandblaster::instruction::InstructionBytes;
use sandblaster::legacy_format::{LegacyArtifactRecord, LegacyLog, LegacyParseError, LegacyTick};
use sandblaster::result::{DisasmResult, ExecutionResult};
use sandblaster::target::TargetSpec;

#[test]
fn parses_legacy_record_lines() {
    let record: LegacyArtifactRecord = "90  1  1  5  1 (90000000000000000000000000000000)"
        .parse()
        .expect("record should parse");
    assert_eq!(record.result.length, 1);
    assert_eq!(record.result.executed_key_hex(), "90");
}

#[test]
fn parses_and_round_trips_log() {
    let input = "\
#\n\
# sudo ./sifter.py --unk\n\
# ./injector -t -R\n\
#\n\
# insn tested: 7\n\
# artf found:  1\n\
# runtime: 00:00:01.00\n\
# seed: 42\n\
# arch: 64\n\
# date: 2026-04-16 12:00:00\n\
#\n\
# cpu:\n\
# processor\t: 0\n\
# vendor_id\t: GenuineIntel\n\
# model name\t: Example CPU\n\
#                              v  l  s  c\n\
90  1  1  5  1 (90000000000000000000000000000000)\n";

    let parsed = LegacyLog::parse(input).expect("log should parse");
    assert_eq!(parsed.header.arch.as_deref(), Some("64"));
    assert_eq!(parsed.records.len(), 1);

    let rendered = parsed.to_text();
    assert!(rendered.contains("artf found"));
    assert!(rendered.contains("90000000000000000000000000000000"));
}

#[test]
fn parses_tick_hex() {
    let tick = LegacyTick::parse("90cc").expect("tick should parse");
    assert_eq!(tick.to_text(), "90cc");
}

#[test]
fn log_header_fields_and_cpu_block_are_read() {
    let input = "# first\n# second\n# third\n# insn tested: 12\n# cpu:\n# model\t: 6\n# stepping\t: 3\n# arch: 32\n";
    let log = LegacyLog::parse(input).expect("log should parse");
    assert_eq!(log.header.command_line.as_deref(), Some("first"));
    assert_eq!(log.header.injector_command.as_deref(), Some("second"));
    assert_eq!(log.header.extra_comments, ["third"]);
    assert_eq!(log.header.insn_tested, Some(12));
    assert_eq!(log.header.cpu.raw_lines, ["model\t: 6", "stepping\t: 3"]);
    assert_eq!(log.header.cpu.model.as_deref(), Some("6"));
    assert_eq!(log.header.cpu.stepping.as_deref(), Some("3"));
    assert_eq!(log.header.cpu.architecture_bits, Some(32));
}

#[test]
fn log_errors_say_where_they_are() {
    let header = LegacyLog::parse("# seed: lots\n").expect_err("bad seed");
    assert_eq!(header, LegacyParseError::InvalidHeader("invalid seed".to_string()));
    assert_eq!(header.message(), "invalid legacy header: invalid seed");
    let record = LegacyLog::parse("90 1 1 5\n").expect_err("short record");
    assert_eq!(record, LegacyParseError::InvalidRecord("missing si_code field".to_string()));
    let unparenthesized = LegacyArtifactRecord::parse("90 1 1 5 1 9000").expect_err("raw without parentheses");
    assert_eq!(
        unparenthesized.message(),
        "invalid legacy record: raw payload is not parenthesized"
    );
    let bad_key = LegacyArtifactRecord::parse("9g 1 1 5 1 (90)").expect_err("bad key");
    assert_eq!(
        bad_key,
        LegacyParseError::InvalidRecord("invalid executed key: invalid hex byte '9g'".to_string())
    );
}

#[test]
fn artifact_line_reads_back() {
    let result = ExecutionResult {
        disasm: DisasmResult { length: 3, known: true },
        instruction: InstructionBytes::from_slice(&[0x0f, 0x0b, 0x90]),
        valid: 1,
        length: 2,
        signum: 4,
        si_code: 2,
        fault_addr: 0x1234,
    };
    let line = LegacyArtifactRecord { result }.to_legacy_line();
    assert_eq!(line, "0f0b  1  2  4  2 (0f0b9000000000000000000000000000)");
    let back = LegacyArtifactRecord::parse(&line).expect("line reads back");
    assert_eq!(back.result.valid, 1);
    assert_eq!(back.result.length, 2);
    assert_eq!(back.result.signum, 4);
    assert_eq!(back.result.si_code, 2);
    assert_eq!(back.result.instruction.bytes(), result.instruction.bytes());
    assert_eq!(back.result.instruction.specified_len(), 2);
    assert_eq!(back.result.fault_addr, u32::MAX);
    assert!(!back.result.disasm.known);
}

#[test]
fn versioned_packet_round_trips_target_and_result() {
    let result = ExecutionResult {
        disasm: DisasmResult {
            length: 4,
            known: true,
        },
        instruction: InstructionBytes::from_slice(&[0x1f, 0x20, 0x03, 0xd5]),
        valid: 1,
        length: 4,
        signum: 5,
        si_code: 0,
        fault_addr: u32::MAX,
    };
    let line =
        VersionedPacket::from_execution_result(TargetSpec::android_arm64(), &result).to_line();
    let parsed = VersionedPacket::parse_line(&line).expect("packet should parse");

    assert_eq!(parsed.target, TargetSpec::android_arm64());
    assert_eq!(parsed.result.disasm, result.disasm);
    assert_eq!(parsed.result.raw_payload_hex(), result.raw_payload_hex());
    assert_eq!(parsed.result.length, result.length);
}

#[test]
fn packet_line_has_eleven_tab_separated_fields() {
    let result = ExecutionResult {
        disasm: DisasmResult { length: 1, known: false },
        instruction: InstructionBytes::from_slice(&[0x90]),
        valid: 1,
        length: 1,
        signum: 11,
        si_code: 2,
        fault_addr: 0xbeef,
    };
    let line = VersionedPacket::from_execution_result(TargetSpec::linux_x86_64(), &result).to_line();
    assert_eq!(
        line,
        "SB1\tlinux\tx86_64\t1\t0\t1\t1\t11\t2\t0000beef\t90000000000000000000000000000000\n"
    );
}

#[test]
fn packet_errors_come_in_order() {
    assert_eq!(
        VersionedPacket::parse_line("SB2\tlinux").unwrap_err(),
        "not a sandblaster v1 packet"
    );
    assert_eq!(
        VersionedPacket::parse_line("SB1\tlinux\tarm64\t1\t0\t1\t1\t11\t2\t0\t90").unwrap_err(),
        "unsupported packet target linux/arm64"
    );
    assert_eq!(
        VersionedPacket::parse_line("SB1\tios\tarm64\tx\t0\t1\ty\t11\t2\t0\t90").unwrap_err(),
        "bad numeric field length: y"
    );
    assert_eq!(
        VersionedPacket::parse_line("SB1\tios\tarm64\t1\t0\t1\t1\t11\t2\tzz\t90").unwrap_err(),
        "bad fault_addr"
    );
    assert_eq!(
        VersionedPacket::parse_line("SB1\tios\tarm64\t1\t0\t1\t1\t11\t2\t0\t9").unwrap_err(),
        "bad raw hex: hex input must have an even length"
    );
}

#[test]
fn raw_packet_layout_matches_reference_fields() {
    let observation = BackendObservation {
        valid: 1,
        length: 2,
        signum: 5,
        si_code: 1,
        fault_addr: 0xffff_fffe,
    };
    let result = observation.into_execution_result(
        InstructionBytes::from_slice(&[0x90, 0xcc]),
        DisasmResult {
            length: 1,
            known: true,
        },
    );
    let packet = RawInjectorPacket::from_execution_result(&result);
    let bytes = packet.to_bytes();
    assert_eq!(bytes.len(), 44);
}

#[test]
fn raw_packet_reads_back_its_fields() {
    let result = BackendObservation { valid: 1, length: 2, signum: 5, si_code: 1, fault_addr: 7 }
        .into_execution_result(
            InstructionBytes::from_slice(&[0x90, 0xcc]),
            DisasmResult { length: 1, known: true },
        );
    let packet = RawInjectorPacket::from_execution_result(&result);
    let bytes = packet.to_bytes();
    assert_eq!(&bytes[8..10], &[0x90, 0xcc]);
    assert_eq!(RawInjectorPacket::from_bytes(bytes), packet);
    let back = packet.into_execution_result();
    assert_eq!(back.instruction.specified_len(), 2);
    assert!(back.disasm.known);
    assert_eq!(back.fault_addr, 7);
}

#[test]
fn text_report_marks_length_mismatch() {
    let result = ExecutionResult {
        disasm: DisasmResult { length: 1, known: true },
        instruction: InstructionBytes::from_slice(&[0x0f, 0x0b]),
        valid: 1,
        length: 2,
        signum: 4,
        si_code: 2,
        fault_addr: 0x10,
    };
    let report = TextReport::from_execution_result(&result);
    assert_eq!(
        report.0,
        " .r: ( 2) sigill    2 00000010 0f0b0000000000000000000000000000\n"
    );
}

#[test]
fn written_log_parses_back_to_itself() {
    let input = "\
#\n\
# sudo ./sifter.py --unk\n\
# ./injector -t -R\n\
#\n\
# insn tested: 7\n\
# artf found:  1\n\
# runtime: 00:00:01.00\n\
# seed: 42\n\
# arch: 64\n\
# date: 2026-04-16 12:00:00\n\
#\n\
# cpu:\n\
# processor\t: 0\n\
# vendor_id\t: GenuineIntel\n\
#                              v  l  s  c\n\
90  1  1  5  1 (90000000000000000000000000000000)\n\
0f0b  1  2  4  2 (0f0b0000000000000000000000000000)\n";
    let log = LegacyLog::parse(input).expect("log should parse");
    assert_eq!(log.header.extra_comments.len(), 1);
    let again = LegacyLog::parse(&log.to_text()).expect("written log should parse");
    assert_eq!(again, log);
    assert_eq!(again.to_text(), log.to_text());
}

#[test]
fn written_log_without_command_lines_moves_the_column_line() {
    let log = LegacyLog::parse("").expect("log should parse");
    assert!(log.header.command_line.is_none());
    let again = LegacyLog::parse(&log.to_text()).expect("written log should parse");
    assert_eq!(
        again.header.command_line.as_deref(),
        Some("                             v  l  s  c")
    );
}

#[test]
fn written_log_drops_extra_comments_but_keeps_fields() {
    let input = "\
#\n\
# sudo ./sifter.py --unk\n\
# ./injector -t -R\n\
# note: hand added\n\
# insn tested: 3\n\
# arch: 64\n\
# cpu:\n\
# model name\t: Example CPU\n\
#                              v  l  s  c\n\
90  1  1  5  1 (90000000000000000000000000000000)\n";
    let log = LegacyLog::parse(input).expect("log should parse");
    assert_eq!(log.header.extra_comments.len(), 2);
    let again = LegacyLog::parse(&log.to_text()).expect("written log should parse");
    assert_eq!(again.header.extra_comments, vec!["                             v  l  s  c".to_string()]);
    assert_eq!(again.records, log.records);
    assert_eq!(again.header.cpu, log.header.cpu);
    assert_eq!(again.header.command_line, log.header.command_line);
    assert_eq!(again.header.injector_command, log.header.injector_command);
    assert_eq!(again.header.insn_tested, log.header.insn_tested);
    assert_eq!(again.header.arch, log.header.arch);
}
