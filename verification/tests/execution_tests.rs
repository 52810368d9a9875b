use front_run_vanilla::execution::{
    calculate_position_size, order_fee, should_exit, TAKER_FEE_RATE,
};
use front_run_vanilla::num::SCALE;
use front_run_vanilla::position::Position;
use front_run_vanilla::types::Side;

fn px(units: i64) -> i64 {
    units * SCALE
}

#[test]
fn test_position_size_calculation() {
    let base = px(1000);

    // Low confidence = 0.5x size
    let size = calculate_position_size(base, 0);
    assert_eq!(size, px(500));

    // Medium confidence = 1.25x size
    let size = calculate_position_size(base, SCALE / 2);
    assert_eq!(size, px(1250));

    // High confidence = 2.0x size
    let size = calculate_position_size(base, SCALE);
    assert_eq!(size, px(2000));
}

#[test]
fn taker_fee_is_four_bps() {
    // 0.04% of a 100 * 1.5 notional = 0.06
    let fee = order_fee(px(100), 15_000, TAKER_FEE_RATE);
    assert_eq!(fee, 600);
}

#[test]
fn should_exit_on_any_trigger() {
    let pos = Position::new_at("BTCUSDT".to_string(), Side::Buy, px(100), SCALE, 0, 1_000);

    // no trigger: small move, young position
    assert!(!should_exit(&pos, 1_000_500, px(10), px(5), 5_000, 2_000));
    // take profit: +0.15% against a 10 bps target
    assert!(should_exit(&pos, 1_001_500, px(10), px(5), 5_000, 2_000));
    // stop loss: -0.07% against a 5 bps floor
    assert!(should_exit(&pos, 999_300, px(10), px(5), 5_000, 2_000));
    // expiry: held longer than allowed
    assert!(should_exit(&pos, px(100), px(10), px(5), 5_000, 7_001));
}
