use front_run_vanilla::composite::SignalAggregator;
use front_run_vanilla::num::SCALE;
use front_run_vanilla::types::{Side, Signal};

fn create_signal(strength: i64, direction: Side, confidence: i64, timestamp_ms: u64) -> Signal {
    Signal { strength, direction, confidence, timestamp_ms, components: vec![] }
}

#[test]
fn test_strong_composite_signal() {
    let aggregator = SignalAggregator::new(3 * SCALE, 15_000, 2);

    let signals = vec![
        create_signal(4 * SCALE, Side::Buy, 8_000, 1), // Strong primary
        create_signal(2 * SCALE, Side::Buy, 6_000, 2), // Confirming 1
        create_signal(25_000, Side::Buy, 7_000, 3),    // Confirming 2
    ];

    let composite = aggregator.aggregate(signals);

    assert!(composite.is_some());
    let sig = composite.unwrap();
    assert_eq!(sig.direction, Side::Buy);
    assert_eq!(sig.confirming.len(), 2);
    assert!(sig.confidence > SCALE / 2);
    assert!(sig.is_tradeable(2));
    // 0.4 * 0.8 + 0.3 * (2 / 4) + 0.3 * avg(0.6, 0.7) = 0.665
    assert_eq!(sig.confidence, 6_650);
}

#[test]
fn test_insufficient_primary_strength() {
    let aggregator = SignalAggregator::new(3 * SCALE, 15_000, 2);

    let signals = vec![
        create_signal(2 * SCALE, Side::Buy, 8_000, 1), // Too weak
        create_signal(2 * SCALE, Side::Buy, 6_000, 2),
        create_signal(25_000, Side::Buy, 7_000, 3),
    ];

    let composite = aggregator.aggregate(signals);
    assert!(composite.is_none());
}

#[test]
fn test_insufficient_confirming_signals() {
    let aggregator = SignalAggregator::new(3 * SCALE, 15_000, 2);

    let signals = vec![
        create_signal(4 * SCALE, Side::Buy, 8_000, 1), // Strong primary
        create_signal(2 * SCALE, Side::Buy, 6_000, 2), // Only 1 confirming
    ];

    let composite = aggregator.aggregate(signals);
    assert!(composite.is_none()); // Needs 2 confirming
}

#[test]
fn test_conflicting_directions() {
    let aggregator = SignalAggregator::new(3 * SCALE, 15_000, 2);

    let signals = vec![
        create_signal(4 * SCALE, Side::Buy, 8_000, 1),    // Primary BUY
        create_signal(-2 * SCALE, Side::Sell, 6_000, 2),  // Conflicting SELL
        create_signal(-25_000, Side::Sell, 7_000, 3),     // Conflicting SELL
    ];

    let composite = aggregator.aggregate(signals);

    // Should not have confirming signals due to direction mismatch
    assert!(composite.is_none());
}

#[test]
fn test_mixed_but_sufficient_confirming() {
    let aggregator = SignalAggregator::new(3 * SCALE, 15_000, 2);

    let signals = vec![
        create_signal(4 * SCALE, Side::Buy, 8_000, 1),  // Primary BUY
        create_signal(2 * SCALE, Side::Buy, 6_000, 2),  // Confirming 1
        create_signal(25_000, Side::Buy, 7_000, 3),     // Confirming 2
        create_signal(-SCALE, Side::Sell, 3_000, 4),    // Weak opposing (ignored)
    ];

    let composite = aggregator.aggregate(signals);

    assert!(composite.is_some());
    let sig = composite.unwrap();
    assert_eq!(sig.confirming.len(), 2);
    assert_eq!(sig.direction, Side::Buy);
}

#[test]
fn test_high_confidence_calculation() {
    let aggregator = SignalAggregator::new(3 * SCALE, 15_000, 2);

    let signals = vec![
        create_signal(5 * SCALE, Side::Buy, 9_000, 1),  // Very strong primary
        create_signal(3 * SCALE, Side::Buy, 8_000, 2),  // Strong confirming 1
        create_signal(35_000, Side::Buy, 8_500, 3),     // Strong confirming 2
        create_signal(2 * SCALE, Side::Buy, 7_000, 4),  // Additional confirming
    ];

    let composite = aggregator.aggregate(signals).unwrap();

    // High confidence due to strong signals and multiple confirmations
    assert!(composite.confidence > 7_000);
}

#[test]
fn test_empty_signals() {
    let aggregator = SignalAggregator::new(3 * SCALE, 15_000, 2);
    let composite = aggregator.aggregate(vec![]);
    assert!(composite.is_none());
}

#[test]
fn ties_pick_the_last_maximal_signal() {
    // two signals of equal absolute strength: the later one is primary
    let aggregator = SignalAggregator::new(SCALE, SCALE, 0);

    let signals = vec![
        create_signal(2 * SCALE, Side::Buy, 8_000, 1),
        create_signal(-2 * SCALE, Side::Sell, 8_000, 2),
    ];

    let composite = aggregator.aggregate(signals).unwrap();
    assert_eq!(composite.direction, Side::Sell);
    assert_eq!(composite.primary.timestamp_ms, 2);
}

#[test]
fn same_timestamp_signals_do_not_confirm() {
    // a distinct signal sharing the primary's timestamp is treated as the
    // primary itself and never confirms it
    let aggregator = SignalAggregator::new(3 * SCALE, 15_000, 1);

    let signals = vec![
        create_signal(4 * SCALE, Side::Buy, 8_000, 7),
        create_signal(2 * SCALE, Side::Buy, 6_000, 7),
    ];

    assert!(aggregator.aggregate(signals).is_none());
}

#[test]
fn overall_strength_blends_primary_and_confirming() {
    let aggregator = SignalAggregator::new(3 * SCALE, 15_000, 2);

    let signals = vec![
        create_signal(4 * SCALE, Side::Buy, 8_000, 1),
        create_signal(2 * SCALE, Side::Buy, 6_000, 2),
        create_signal(25_000, Side::Buy, 7_000, 3),
    ];

    let composite = aggregator.aggregate(signals).unwrap();
    // 0.6 * 4.0 + 0.4 * avg(2.0, 2.5) = 2.4 + 0.9 = 3.3
    assert_eq!(composite.overall_strength, 33_000);
}
