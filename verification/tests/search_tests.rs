use sandblaster::instruction::{InstructionBytes, RAW_REPORT_INSN_BYTES};
use sandblaster::search::brute::BruteStrategy;
use sandblaster::search::random::RandomStrategy;
use sandblaster::search::strategy::{SearchRange, StrategyFeedback};
use sandblaster::search::tunnel::TunnelStrategy;

#[test]
fn brute_honors_start_and_exclusive_end() {
    let range = SearchRange {
        start: InstructionBytes::from_slice(&[0x90]),
        end: InstructionBytes::from_slice(&[0x92]),
    };
    let mut strategy = BruteStrategy::with_range(1, range);
    assert_eq!(
        strategy.next_candidate(),
        Some(InstructionBytes::from_slice(&[0x90]))
    );
    assert_eq!(
        strategy.next_candidate(),
        Some(InstructionBytes::from_slice(&[0x91]))
    );
    assert_eq!(strategy.next_candidate(), None);
}

#[test]
fn random_strategy_is_seed_deterministic() {
    let range: SearchRange = Default::default();
    let mut left = RandomStrategy::new(123, range);
    let mut right = RandomStrategy::new(123, range);
    assert_eq!(left.next_candidate(), right.next_candidate());
}

#[test]
fn random_candidates_stay_within_the_range_bytes() {
    let range = SearchRange {
        start: InstructionBytes::from_slice(&[0x10, 0x20]),
        end: InstructionBytes::from_slice(&[0x11, 0x30]),
    };
    let mut strategy = RandomStrategy::new(7, range);
    for _ in 0..50 {
        let candidate = strategy.next_candidate().expect("random search never ends");
        let bytes = candidate.bytes();
        assert!(bytes[0] >= 0x10 && bytes[0] <= 0x11);
        assert!(bytes[1] >= 0x20 && bytes[1] <= 0x30);
        assert_eq!(candidate.specified_len(), 2);
    }
}

#[test]
fn tunnel_honors_start_and_exclusive_end() {
    let range = SearchRange {
        start: InstructionBytes::from_slice(&[0x90]),
        end: InstructionBytes::from_slice(&[0x90, 0x01]),
    };
    let mut strategy = TunnelStrategy::with_range(range);
    assert_eq!(
        strategy.next_candidate(),
        Some(InstructionBytes::from_slice(&[0x90, 0x00]))
    );
    assert_eq!(strategy.next_candidate(), None);
}

#[test]
fn tunnel_descends_when_observed_length_changes() {
    let range = SearchRange {
        start: InstructionBytes::from_slice(&[]),
        end: InstructionBytes::from_slice(&[0x01]),
    };
    let mut strategy = TunnelStrategy::with_range(range);
    assert_eq!(
        strategy.next_candidate(),
        Some(InstructionBytes::from_slice(&[0x00]))
    );
    strategy.observe(StrategyFeedback {
        observed_length: 2,
        signum: 5,
        disasm_length: 0,
        disasm_known: false,
    });
    assert_eq!(
        strategy.next_candidate(),
        Some(InstructionBytes::from_slice(&[0x00, 0x01]))
    );
}

#[test]
fn tunnel_does_not_descend_into_known_matching_operands() {
    let range = SearchRange {
        start: InstructionBytes::from_slice(&[0x00, 0x14]),
        end: InstructionBytes::from_slice(&[0x00, 0x16]),
    };
    let mut strategy = TunnelStrategy::with_range(range);
    assert_eq!(
        strategy.next_candidate(),
        Some(InstructionBytes::from_slice(&[0x00, 0x14, 0x00]))
    );
    strategy.observe(StrategyFeedback {
        observed_length: 6,
        signum: 5,
        disasm_length: 6,
        disasm_known: true,
    });
    assert_eq!(
        strategy.next_candidate(),
        Some(InstructionBytes::from_slice(&[0x00, 0x15]))
    );
}

#[test]
fn tunnel_backs_out_of_unknown_sigill_space() {
    let range = SearchRange {
        start: InstructionBytes::from_slice(&[0x82, 0x04]),
        end: InstructionBytes::from_slice(&[0x82, 0x06]),
    };
    let mut strategy = TunnelStrategy::with_range(range);
    assert_eq!(
        strategy.next_candidate(),
        Some(InstructionBytes::from_slice(&[0x82, 0x04, 0x00]))
    );
    strategy.observe(StrategyFeedback {
        observed_length: 8,
        signum: 4,
        disasm_length: 0,
        disasm_known: false,
    });
    assert_eq!(
        strategy.next_candidate(),
        Some(InstructionBytes::from_slice(&[0x82, 0x05]))
    );
}

#[test]
fn tunnel_backs_out_to_fault_length_for_unknown_sigill() {
    let mut strategy = strategy_at(&[0x62, 0x08, 0x16, 0xbd, 0x00], 4);
    strategy.observe(StrategyFeedback {
        observed_length: 2,
        signum: 4,
        disasm_length: 0,
        disasm_known: false,
    });
    assert_eq!(
        strategy.next_candidate(),
        Some(InstructionBytes::from_slice(&[0x62, 0x09]))
    );
}

#[test]
fn tunnel_descends_through_prefix_and_escape_bytes() {
    let mut prefix_strategy = strategy_at(&[0x66], 0);
    prefix_strategy.observe(StrategyFeedback {
        observed_length: 1,
        signum: 5,
        disasm_length: 1,
        disasm_known: true,
    });
    assert_eq!(
        prefix_strategy.next_candidate(),
        Some(InstructionBytes::from_slice(&[0x66, 0x01]))
    );

    let mut escape_strategy = strategy_at(&[0x0f], 0);
    escape_strategy.observe(StrategyFeedback {
        observed_length: 1,
        signum: 4,
        disasm_length: 0,
        disasm_known: false,
    });
    assert_eq!(
        escape_strategy.next_candidate(),
        Some(InstructionBytes::from_slice(&[0x0f, 0x01]))
    );
}

/// A started tunnel search over `bytes` whose searched byte is `index`,
/// reached through its public constructor and first candidate.
fn strategy_at(bytes: &[u8], index: usize) -> TunnelStrategy {
    let mut raw = [0_u8; RAW_REPORT_INSN_BYTES];
    raw[..bytes.len()].copy_from_slice(bytes);
    let range = SearchRange {
        start: InstructionBytes::new(raw, index),
        end: InstructionBytes::new([0xff; RAW_REPORT_INSN_BYTES], 15),
    };
    let mut strategy = TunnelStrategy::with_range(range);
    let first = strategy.next_candidate().expect("first candidate");
    assert_eq!(first.bytes(), &raw);
    strategy
}

#[test]
fn brute_default_range_counts_up_from_zero() {
    let mut strategy = BruteStrategy::new(1);
    assert_eq!(strategy.next_candidate(), Some(InstructionBytes::from_slice(&[0x00])));
    assert_eq!(strategy.next_candidate(), Some(InstructionBytes::from_slice(&[0x01])));
}
