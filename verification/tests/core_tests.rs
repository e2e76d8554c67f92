use sandblaster::anomaly::{is_unusual_si_code, AnomalyKind, FilterConfig};
use sandblaster::cpu::{extended_feature_leaf, CpuCapabilities, CpuMetadata, CpuidRegisters};
use sandblaster::target::{Architecture, Platform, TargetSpec};
use sandblaster::instruction::{format_full_hex, parse_hex_instruction, InstructionBytes, RAW_REPORT_INSN_BYTES};
use sandblaster::result::{DisasmResult, ExecutionResult};

#[test]
fn parses_hex_into_fixed_array() {
    let instruction = parse_hex_instruction("90cc").expect("parse should succeed");
    assert_eq!(instruction.specified_len(), 2);
    assert_eq!(&instruction.bytes()[..4], &[0x90, 0xcc, 0x00, 0x00]);
}

#[test]
fn rejects_odd_length_hex() {
    let error = parse_hex_instruction("9").expect_err("odd-length input should fail");
    assert!(error.contains("even length"));
}

#[test]
fn formats_full_array_hex() {
    let bytes = [0x41_u8; RAW_REPORT_INSN_BYTES];
    let text = format_full_hex(&bytes);
    assert_eq!(text.len(), RAW_REPORT_INSN_BYTES * 2);
    assert!(text.starts_with("4141"));
}

fn base_result() -> ExecutionResult {
    ExecutionResult {
        disasm: DisasmResult {
            length: 1,
            known: true,
        },
        instruction: InstructionBytes::from_slice(&[0x90]),
        valid: 1,
        length: 1,
        signum: 5,
        si_code: 1,
        fault_addr: u32::MAX,
    }
}

#[test]
fn matches_unknown_logic_from_reference() {
    let mut result = base_result();
    result.disasm.known = false;
    let config = FilterConfig {
        search_unknown: true,
        ..FilterConfig::default()
    };
    assert_eq!(
        config.detect(&result),
        Some(AnomalyKind::UnknownInstruction)
    );
    result.signum = 4;
    assert_eq!(config.detect(&result), None);
}

#[test]
fn matches_executed_unknown() {
    let mut result = base_result();
    result.disasm.known = false;
    result.signum = 0;
    let config = FilterConfig {
        search_executed_unknown: true,
        ..FilterConfig::default()
    };
    assert_eq!(config.detect(&result), Some(AnomalyKind::ExecutedUnknown));
}

#[test]
fn matches_length_difference_logic() {
    let mut result = base_result();
    result.length = 2;
    let config = FilterConfig {
        search_length: true,
        ..FilterConfig::default()
    };
    assert_eq!(config.detect(&result), Some(AnomalyKind::LengthMismatchAny));
}

#[test]
fn ignores_results_marked_invalid() {
    let mut result = base_result();
    result.valid = 0;
    let config = FilterConfig {
        search_length: true,
        search_unknown: true,
        search_disasm_length: true,
        search_invalid_known: true,
        search_executed_unknown: true,
        search_si_code: true,
    };
    assert_eq!(config.detect(&result), None);
}

#[test]
fn detects_unusual_si_code() {
    let mut result = base_result();
    result.signum = 4;
    result.si_code = 7;
    let config = FilterConfig {
        search_si_code: true,
        ..FilterConfig::default()
    };
    assert_eq!(config.detect(&result), Some(AnomalyKind::UnexpectedSiCode));

    result.si_code = 1;
    assert_eq!(config.detect(&result), None);
}

#[test]
fn parses_cpuinfo_metadata() {
    let metadata = CpuMetadata::from_cpuinfo_str(
        "processor\t: 0\nvendor_id\t: GenuineIntel\nmodel name\t: Example CPU\n",
    );
    assert_eq!(metadata.processor.as_deref(), Some("0"));
    assert_eq!(metadata.vendor_id.as_deref(), Some("GenuineIntel"));
}

#[test]
fn detects_capabilities_or_gracefully_absent() {
    // CPUID leaf 0 of an Intel processor: "Genu" "ineI" "ntel" in EBX, EDX, ECX.
    let basic = CpuidRegisters { eax: 0x16, ebx: 0x756e_6547, ecx: 0x6c65_746e, edx: 0x4965_6e69 };
    let leaf1 = CpuidRegisters { eax: 0, ebx: 0, ecx: 0, edx: (1 << 4) | (1 << 9) };
    let extended = CpuidRegisters { eax: 0x8000_0008, ebx: 0, ecx: 0, edx: 0 };
    let ext = CpuidRegisters { eax: 0, ebx: 0, ecx: 0, edx: (1 << 20) | (1 << 29) };
    let capabilities = CpuCapabilities::from_cpuid(basic, leaf1, extended, ext);
    if let Some(capabilities) = capabilities {
        assert!(!capabilities.vendor.is_empty());
        assert_eq!(capabilities.vendor, "GenuineIntel");
        assert!(capabilities.has_tsc && !capabilities.has_msr && capabilities.has_apic);
        assert!(capabilities.has_nx && capabilities.has_long_mode && !capabilities.has_rdtscp);
    } else {
        panic!("ASCII vendor bytes always decode");
    }
}

#[test]
fn cpuinfo_keeps_first_seven_lines_and_last_values() {
    let text = "a\nb\nc\nd\ne\nf\ng\nh\nmodel\t: 1\nmodel\t: 2\nmodel name\t:  Spaced  \n";
    let metadata = CpuMetadata::from_cpuinfo_str(text);
    assert_eq!(metadata.raw_lines, ["a", "b", "c", "d", "e", "f", "g"]);
    assert_eq!(metadata.model.as_deref(), Some("2"));
    assert_eq!(metadata.model_name.as_deref(), Some("Spaced"));
    assert_eq!(metadata.stepping, None);
}

#[test]
fn extended_feature_leaf_falls_back_to_leaf_zero() {
    assert_eq!(extended_feature_leaf(0x8000_0001), 0x8000_0001);
    assert_eq!(extended_feature_leaf(0x8000_0000), 0);
}

#[test]
fn hex_errors_name_the_problem() {
    assert_eq!(parse_hex_instruction("90zz").unwrap_err(), "invalid hex byte 'zz'");
    assert_eq!(
        parse_hex_instruction(&"00".repeat(17)).unwrap_err(),
        "hex input is longer than 16 bytes"
    );
    let padded = parse_hex_instruction("  0f05\n").expect("surrounding whitespace is ignored");
    assert_eq!(padded.compact_hex(), "0f05");
}

#[test]
fn full_hex_parses_back_to_the_same_bytes() {
    let bytes: Vec<u8> = (0u8..16).map(|b| b * 17).collect();
    let text = format_full_hex(&bytes);
    assert_eq!(text, "00112233445566778899aabbccddeeff");
    let parsed = parse_hex_instruction(&text).expect("full hex parses");
    assert_eq!(&parsed.bytes()[..], &bytes[..]);
    assert_eq!(parsed.specified_len(), 16);
}

#[test]
fn executed_prefix_is_clamped_to_sixteen() {
    let instruction = InstructionBytes::from_slice(&[1, 2, 3]);
    assert_eq!(instruction.executed_prefix(2), &[1, 2]);
    assert_eq!(instruction.executed_prefix(40).len(), 16);
    let mut longer = instruction;
    longer.set_specified_len(99);
    assert_eq!(longer.specified_len(), 16);
}

#[test]
fn parses_mobile_targets() {
    let host = TargetSpec::linux_x86_64();
    let android = TargetSpec::parse_name("android-arm64", host).expect("target should parse");
    assert_eq!(android.architecture, Architecture::Arm64);
    assert_eq!(android.platform, Platform::Android);
    assert_eq!(android.fixed_instruction_len, Some(4));

    let ios = TargetSpec::parse_name("ios-arm64", host).expect("target should parse");
    assert_eq!(ios.name(), "ios-arm64");
}

#[test]
fn unknown_target_names_are_refused() {
    let host = TargetSpec::linux_x86_64();
    assert_eq!(TargetSpec::parse_name("host", host), Ok(host));
    assert_eq!(
        TargetSpec::parse_name("sparc", host),
        Err("unknown target 'sparc'".to_string())
    );
}

#[test]
fn vendor_bytes_that_are_not_utf8_give_no_capabilities() {
    let basic = CpuidRegisters { eax: 1, ebx: 0xffff_ffff, ecx: 0x6c65_746e, edx: 0x4965_6e69 };
    let zero = CpuidRegisters { eax: 0, ebx: 0, ecx: 0, edx: 0 };
    assert!(CpuCapabilities::from_cpuid(basic, zero, zero, zero).is_none());
}

#[test]
fn capabilities_with_vendor_keep_vendor_and_bits() {
    let basic = CpuidRegisters { eax: 0xd, ebx: 0, ecx: 0, edx: 0 };
    let leaf1 = CpuidRegisters { eax: 0, ebx: 0, ecx: 0, edx: 1 << 5 };
    let extended = CpuidRegisters { eax: 0x8000_0001, ebx: 0, ecx: 0, edx: 0 };
    let ext = CpuidRegisters { eax: 0, ebx: 0, ecx: 0, edx: (1 << 11) | (1 << 26) | (1 << 27) };
    assert!(CpuCapabilities::with_vendor(None, basic, leaf1, extended, ext).is_none());
    let c = CpuCapabilities::with_vendor(Some("AuthenticAMD".to_string()), basic, leaf1, extended, ext)
        .expect("a vendor gives capabilities");
    assert_eq!(c.vendor, "AuthenticAMD");
    assert_eq!((c.max_basic_leaf, c.max_extended_leaf), (0xd, 0x8000_0001));
    assert!(!c.has_tsc && c.has_msr && !c.has_apic);
    assert!(c.has_syscall_sysret && c.has_1gib_pages && c.has_rdtscp);
    assert!(!c.has_nx && !c.has_long_mode);
}

#[test]
fn bus_and_segv_expect_only_codes_one_and_two() {
    for signum in [7u32, 11] {
        assert!(is_unusual_si_code(signum, 0));
        assert!(!is_unusual_si_code(signum, 1));
        assert!(!is_unusual_si_code(signum, 2));
        assert!(is_unusual_si_code(signum, 3));
    }
    assert!(is_unusual_si_code(4, 0));
    assert!(!is_unusual_si_code(5, 1));
    assert!(!is_unusual_si_code(6, 0));
}

#[test]
fn padded_hex_reads_back_its_bytes() {
    let parsed = parse_hex_instruction(" \t0f0b90\n ").expect("padded hex should parse");
    assert_eq!(parsed, InstructionBytes::from_slice(&[0x0f, 0x0b, 0x90]));
    assert_eq!(parse_hex_instruction("  ").expect("blank parses"), InstructionBytes::from_slice(&[]));
}
