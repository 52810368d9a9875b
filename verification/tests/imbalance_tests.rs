use front_run_vanilla::book::OrderBook;
use front_run_vanilla::imbalance::ImbalanceDetector;
use front_run_vanilla::num::SCALE;
use front_run_vanilla::types::Side;

fn px(units: i64) -> i64 {
    units * SCALE
}

#[test]
fn test_bullish_imbalance_signal() {
    let mut detector = ImbalanceDetector::new(5, 100, 3 * SCALE);
    let mut ob = OrderBook::new("BTCUSDT");

    // Build normal baseline first
    for _ in 0..50 {
        ob.update_level(Side::Buy, px(100), px(5)).unwrap();
        ob.update_level(Side::Sell, px(101), px(5)).unwrap();
        detector.calculate_signal(&ob);
    }

    // Now create heavy bid imbalance
    ob.update_level(Side::Buy, px(100), px(50)).unwrap(); // 10x bid
    ob.update_level(Side::Sell, px(101), px(2)).unwrap(); // Low ask

    let signal = detector.calculate_signal(&ob);

    assert!(signal.is_some());
    let sig = signal.unwrap();
    assert_eq!(sig.direction, Side::Buy);
    assert!(sig.strength > 0);
    assert!(sig.confidence > SCALE / 2);
}

#[test]
fn test_bearish_imbalance_signal() {
    let mut detector = ImbalanceDetector::new(5, 100, 3 * SCALE);
    let mut ob = OrderBook::new("BTCUSDT");

    // Build baseline
    for _ in 0..50 {
        ob.update_level(Side::Buy, px(100), px(5)).unwrap();
        ob.update_level(Side::Sell, px(101), px(5)).unwrap();
        detector.calculate_signal(&ob);
    }

    // Heavy ask imbalance
    ob.update_level(Side::Buy, px(100), px(2)).unwrap();
    ob.update_level(Side::Sell, px(101), px(50)).unwrap();

    let signal = detector.calculate_signal(&ob);

    assert!(signal.is_some());
    let sig = signal.unwrap();
    assert_eq!(sig.direction, Side::Sell);
    assert!(sig.strength < 0);
}

#[test]
fn test_no_signal_balanced_book() {
    let mut detector = ImbalanceDetector::new(5, 100, 3 * SCALE);
    let mut ob = OrderBook::new("BTCUSDT");

    // Balanced book
    for _ in 0..100 {
        ob.update_level(Side::Buy, px(100), px(5)).unwrap();
        ob.update_level(Side::Sell, px(101), px(5)).unwrap();

        let signal = detector.calculate_signal(&ob);
        // Should not generate signal for balanced book
        if let Some(sig) = signal {
            assert!(sig.strength.abs() < 3 * SCALE);
        }
    }
}

#[test]
fn test_minimum_samples_required() {
    let mut detector = ImbalanceDetector::new(5, 100, 3 * SCALE);
    let mut ob = OrderBook::new("BTCUSDT");

    ob.update_level(Side::Buy, px(100), px(50)).unwrap();
    ob.update_level(Side::Sell, px(101), px(1)).unwrap();

    // Should not generate signal with insufficient samples
    let signal = detector.calculate_signal(&ob);
    assert!(signal.is_none());
}

#[test]
fn test_statistics() {
    let mut detector = ImbalanceDetector::new(5, 100, 3 * SCALE);
    let mut ob = OrderBook::new("BTCUSDT");

    for _ in 0..60 {
        ob.update_level(Side::Buy, px(100), px(5)).unwrap();
        ob.update_level(Side::Sell, px(101), px(5)).unwrap();
        detector.calculate_signal(&ob);
    }

    let stats = detector.get_stats();
    assert_eq!(stats.sample_count, 60);
    assert!(stats.current_ratio.is_some());
    // Mean should be around 1.0 for balanced book
    assert!((stats.mean - SCALE).abs() < SCALE / 10);
}

#[test]
fn no_signal_before_half_window() {
    // with a window of 100, the 49th sample can never produce a signal
    let mut detector = ImbalanceDetector::new(5, 100, 3 * SCALE);
    let mut ob = OrderBook::new("BTCUSDT");
    for i in 0..49 {
        // vary the book so the variance is not degenerate
        ob.update_level(Side::Buy, px(100), px(5 + (i % 7))).unwrap();
        ob.update_level(Side::Sell, px(101), px(5)).unwrap();
        assert!(detector.calculate_signal(&ob).is_none());
    }
    assert_eq!(detector.get_stats().sample_count, 49);
}

#[test]
fn reset_clears_history() {
    let mut detector = ImbalanceDetector::new(5, 100, 3 * SCALE);
    let mut ob = OrderBook::new("BTCUSDT");
    ob.update_level(Side::Buy, px(100), px(5)).unwrap();
    ob.update_level(Side::Sell, px(101), px(5)).unwrap();
    detector.calculate_signal(&ob);
    assert_eq!(detector.get_stats().sample_count, 1);
    detector.reset();
    assert_eq!(detector.get_stats().sample_count, 0);
}

#[test]
fn exact_ratio_enters_history() {
    // bids 50, asks 2 over the top levels: ratio = 25.0
    let mut detector = ImbalanceDetector::new(5, 100, 3 * SCALE);
    let mut ob = OrderBook::new("BTCUSDT");
    ob.update_level(Side::Buy, px(100), px(50)).unwrap();
    ob.update_level(Side::Sell, px(101), px(2)).unwrap();
    detector.calculate_signal(&ob);
    assert_eq!(detector.get_stats().current_ratio, Some(25 * SCALE));
}
