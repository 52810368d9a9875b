use front_run_vanilla::num::SCALE;
use front_run_vanilla::types::Side;
use front_run_vanilla::wire::{parse_fixed, AggTrade, DepthUpdate};

#[test]
fn test_parse_depth_update() {
    let update = DepthUpdate {
        event_type: "depthUpdate".to_string(),
        event_time: 1234567890,
        symbol: "BTCUSDT".to_string(),
        first_update_id: 1,
        final_update_id: 2,
        bids: vec![
            ("100.00".to_string(), "1.5".to_string()),
            ("99.50".to_string(), "2.0".to_string()),
        ],
        asks: vec![
            ("101.00".to_string(), "1.0".to_string()),
            ("101.50".to_string(), "0.5".to_string()),
        ],
    };

    assert_eq!(update.symbol, "BTCUSDT");

    let bids = update.parse_bids();
    assert_eq!(bids.len(), 2);
    assert_eq!(bids[0], (100 * SCALE, 15_000));
    assert_eq!(bids[1], (995_000, 2 * SCALE));

    let asks = update.parse_asks();
    assert_eq!(asks.len(), 2);
    assert_eq!(asks[1], (1_015_000, 5_000));
}

#[test]
fn test_parse_agg_trade() {
    let agg_trade = AggTrade {
        event_type: "aggTrade".to_string(),
        event_time: 1234567890,
        symbol: "BTCUSDT".to_string(),
        agg_trade_id: 12345,
        price: "100.00".to_string(),
        quantity: "1.5".to_string(),
        first_trade_id: 100,
        last_trade_id: 105,
        trade_time: 1234567890,
        is_buyer_maker: false,
    };

    let trade = agg_trade.to_trade().unwrap();

    assert_eq!(trade.side, Side::Buy);
    assert!(!trade.is_buyer_maker);
    assert_eq!(trade.price, 100 * SCALE);
    assert_eq!(trade.quantity, 15_000);
    assert_eq!(trade.timestamp_ms, 1234567890);
}

#[test]
fn parse_fixed_accepts_plain_decimals() {
    assert_eq!(parse_fixed("0"), Some(0));
    assert_eq!(parse_fixed("7"), Some(7 * SCALE));
    assert_eq!(parse_fixed("100.00"), Some(100 * SCALE));
    assert_eq!(parse_fixed("0.001"), Some(10));
    assert_eq!(parse_fixed("0.0001"), Some(1));
    assert_eq!(parse_fixed("12345.6789"), Some(123_456_789));
}

#[test]
fn parse_fixed_rejects_bad_shapes() {
    assert_eq!(parse_fixed(""), None);
    assert_eq!(parse_fixed("."), None);
    assert_eq!(parse_fixed("1."), None);
    assert_eq!(parse_fixed(".5"), None);
    assert_eq!(parse_fixed("-1"), None);
    assert_eq!(parse_fixed("1.2.3"), None);
    assert_eq!(parse_fixed("1a"), None);
    // more fraction digits than the fixed-point resolution carries
    assert_eq!(parse_fixed("0.00005"), None);
    // too large to represent
    assert_eq!(parse_fixed("99999999999999999999999"), None);
}

#[test]
fn malformed_levels_are_dropped() {
    let update = DepthUpdate {
        event_type: "depthUpdate".to_string(),
        event_time: 0,
        symbol: "BTCUSDT".to_string(),
        first_update_id: 0,
        final_update_id: 0,
        bids: vec![
            ("100.00".to_string(), "bad".to_string()),
            ("99.00".to_string(), "1.0".to_string()),
        ],
        asks: vec![],
    };
    let bids = update.parse_bids();
    assert_eq!(bids, vec![(99 * SCALE, SCALE)]);
}

#[test]
fn unparseable_trade_is_dropped() {
    let agg_trade = AggTrade {
        event_type: "aggTrade".to_string(),
        event_time: 0,
        symbol: "BTCUSDT".to_string(),
        agg_trade_id: 1,
        price: "not-a-number".to_string(),
        quantity: "1.0".to_string(),
        first_trade_id: 0,
        last_trade_id: 0,
        trade_time: 0,
        is_buyer_maker: true,
    };
    assert!(agg_trade.to_trade().is_none());
}
