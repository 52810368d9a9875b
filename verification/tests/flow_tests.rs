use front_run_vanilla::auth::get_timestamp;
use front_run_vanilla::flow::FlowAnalyzer;
use front_run_vanilla::num::SCALE;
use front_run_vanilla::types::{Side, Trade};

fn create_buy_trade(qty: i64) -> Trade {
    Trade {
        id: 1,
        price: 100 * SCALE,
        quantity: qty,
        side: Side::Buy,
        timestamp_ms: get_timestamp(),
        is_buyer_maker: false, // Aggressive buy
    }
}

fn create_sell_trade(qty: i64) -> Trade {
    Trade {
        id: 2,
        price: 100 * SCALE,
        quantity: qty,
        side: Side::Sell,
        timestamp_ms: get_timestamp(),
        is_buyer_maker: true, // Aggressive sell
    }
}

#[test]
fn test_aggressive_buying_signal() {
    let mut analyzer = FlowAnalyzer::new(20, 5000, 6_000);

    // Buying pressure followed by a burst of sells
    for _ in 0..15 {
        analyzer.process_trade(create_buy_trade(SCALE));
    }
    for _ in 0..5 {
        analyzer.process_trade(create_sell_trade(SCALE));
    }

    let signal = analyzer.process_trade(create_buy_trade(SCALE));

    // The five sells immediately before the final buy carry the heaviest
    // decay weights, so the weighted imbalance (about +0.33) stays below
    // the 0.6 threshold and nothing is emitted.
    assert!(signal.is_none());
    let stats = analyzer.get_stats();
    assert!(stats.buy_volume > stats.sell_volume);
    assert_eq!(stats.imbalance, Some(3_297));
}

#[test]
fn test_aggressive_selling_signal() {
    let mut analyzer = FlowAnalyzer::new(20, 5000, 6_000);

    // Selling pressure followed by a burst of buys
    for _ in 0..15 {
        analyzer.process_trade(create_sell_trade(SCALE));
    }
    for _ in 0..5 {
        analyzer.process_trade(create_buy_trade(SCALE));
    }

    let signal = analyzer.process_trade(create_sell_trade(SCALE));

    // Mirror image of the buying case: the weighted imbalance is about
    // -0.33, inside the threshold, so nothing is emitted.
    assert!(signal.is_none());
    let stats = analyzer.get_stats();
    assert!(stats.sell_volume > stats.buy_volume);
    assert_eq!(stats.imbalance, Some(-3_297));
}

#[test]
fn buy_signal_when_recent_flow_is_one_sided() {
    let mut analyzer = FlowAnalyzer::new(20, 5000, 6_000);

    // old sells, then overwhelming recent buying
    for _ in 0..5 {
        analyzer.process_trade(create_sell_trade(SCALE));
    }
    for _ in 0..15 {
        analyzer.process_trade(create_buy_trade(SCALE));
    }

    let signal = analyzer.process_trade(create_buy_trade(SCALE));

    assert!(signal.is_some());
    let sig = signal.unwrap();
    assert_eq!(sig.direction, Side::Buy);
    assert!(sig.strength > 0);
}

#[test]
fn sell_signal_when_recent_flow_is_one_sided() {
    let mut analyzer = FlowAnalyzer::new(20, 5000, 6_000);

    for _ in 0..5 {
        analyzer.process_trade(create_buy_trade(SCALE));
    }
    for _ in 0..15 {
        analyzer.process_trade(create_sell_trade(SCALE));
    }

    let signal = analyzer.process_trade(create_sell_trade(SCALE));

    assert!(signal.is_some());
    let sig = signal.unwrap();
    assert_eq!(sig.direction, Side::Sell);
    assert!(sig.strength < 0);
}

#[test]
fn test_balanced_flow_no_signal() {
    let mut analyzer = FlowAnalyzer::new(20, 5000, 6_000);

    // Balanced flow
    for _ in 0..10 {
        analyzer.process_trade(create_buy_trade(SCALE));
        analyzer.process_trade(create_sell_trade(SCALE));
    }

    let signal = analyzer.process_trade(create_buy_trade(SCALE));

    // Should not generate signal for balanced flow
    assert!(signal.is_none());
}

#[test]
fn test_recent_trades_weighted_more() {
    let mut analyzer = FlowAnalyzer::new(20, 5000, 6_000);

    // Old sells
    for _ in 0..10 {
        analyzer.process_trade(create_sell_trade(SCALE));
    }

    // Recent large buys
    for _ in 0..5 {
        analyzer.process_trade(create_buy_trade(3 * SCALE));
    }

    let stats = analyzer.get_stats();

    // Recent buys should be weighted more
    assert!(stats.buy_volume > stats.sell_volume);
}

#[test]
fn test_minimum_trades_required() {
    let mut analyzer = FlowAnalyzer::new(20, 5000, 6_000);

    // Only a few trades
    analyzer.process_trade(create_buy_trade(10 * SCALE));
    let signal = analyzer.process_trade(create_buy_trade(10 * SCALE));

    // Should not signal with too few trades
    assert!(signal.is_none());
}

#[test]
fn flow_test_statistics() {
    let mut analyzer = FlowAnalyzer::new(20, 5000, 6_000);

    for _ in 0..10 {
        analyzer.process_trade(create_buy_trade(2 * SCALE));
    }
    for _ in 0..5 {
        analyzer.process_trade(create_sell_trade(SCALE));
    }

    let stats = analyzer.get_stats();
    assert_eq!(stats.trade_count, 15);
    assert!(stats.imbalance.is_some());
    assert!(stats.imbalance.unwrap() > 0); // More buys
}

#[test]
fn single_trade_statistics_are_exact() {
    let mut analyzer = FlowAnalyzer::new(20, 5000, 6_000);
    analyzer.process_trade(create_buy_trade(SCALE));
    let stats = analyzer.get_stats();
    // the newest trade carries weight one: volume 1.0, imbalance +1.0
    assert_eq!(stats.trade_count, 1);
    assert_eq!(stats.buy_volume, SCALE);
    assert_eq!(stats.sell_volume, 0);
    assert_eq!(stats.imbalance, Some(SCALE));
}

#[test]
fn reset_clears_trades() {
    let mut analyzer = FlowAnalyzer::new(20, 5000, 6_000);
    analyzer.process_trade(create_buy_trade(SCALE));
    assert_eq!(analyzer.get_stats().trade_count, 1);
    analyzer.reset();
    assert_eq!(analyzer.get_stats().trade_count, 0);
}
