use front_run_vanilla::num::SCALE;
use front_run_vanilla::position::{Position, PositionError, PositionManager};
use front_run_vanilla::types::Side;

fn px(units: i64) -> i64 {
    units * SCALE
}

#[test]
fn test_long_position_profit() {
    let pos = Position::new(
        "BTCUSDT".to_string(),
        Side::Buy,
        px(100),
        SCALE,     // quantity 1.0
        400,       // 0.04 fee
    );

    // Price goes up 10%
    let pnl = pos.unrealized_pnl(px(110));
    assert!(pnl > 0);
    assert_eq!(pnl, 99_600); // 10 - 0.04 fee
}

#[test]
fn test_long_position_loss() {
    let pos = Position::new("BTCUSDT".to_string(), Side::Buy, px(100), SCALE, 400);

    // Price goes down 5%
    let pnl = pos.unrealized_pnl(px(95));
    assert!(pnl < 0);
    assert_eq!(pnl, -50_400); // -5 - 0.04 fee
}

#[test]
fn test_short_position_profit() {
    let pos = Position::new("BTCUSDT".to_string(), Side::Sell, px(100), SCALE, 400);

    // Price goes down 10% (profit for short)
    let pnl = pos.unrealized_pnl(px(90));
    assert!(pnl > 0);
    assert_eq!(pnl, 99_600);
}

#[test]
fn test_take_profit_hit() {
    let pos = Position::new("BTCUSDT".to_string(), Side::Buy, px(100), SCALE, 0);

    // Take profit at 10 bps (0.10%)
    assert!(!pos.take_profit_hit(1_000_500, px(10))); // Only 0.05%
    assert!(pos.take_profit_hit(1_001_500, px(10))); // 0.15% hit!
}

#[test]
fn test_stop_loss_hit() {
    let pos = Position::new("BTCUSDT".to_string(), Side::Buy, px(100), SCALE, 0);

    // Stop loss at 5 bps (0.05%)
    assert!(!pos.stop_loss_hit(999_700, px(5))); // Only -0.03%
    assert!(pos.stop_loss_hit(999_300, px(5))); // -0.07% hit!
}

#[test]
fn test_position_manager() {
    let mut manager = PositionManager::new();

    let pos1 = Position::new("BTCUSDT".to_string(), Side::Buy, px(100), SCALE, 400);

    manager.open_position(pos1).unwrap();
    assert_eq!(manager.position_count(), 1);

    let pnl = manager.close_position("BTCUSDT", px(110), 400).unwrap();
    assert_eq!(pnl, 99_200); // 10 - 0.04 - 0.04
    assert_eq!(manager.position_count(), 0);
    assert_eq!(manager.closed_positions().len(), 1);
}

#[test]
fn test_win_rate() {
    let mut manager = PositionManager::new();

    // Win
    let pos1 = Position::new("BTC".into(), Side::Buy, px(100), SCALE, 0);
    manager.open_position(pos1).unwrap();
    manager.close_position("BTC", px(110), 0).unwrap();

    // Loss
    let pos2 = Position::new("BTC".into(), Side::Buy, px(100), SCALE, 0);
    manager.open_position(pos2).unwrap();
    manager.close_position("BTC", px(95), 0).unwrap();

    // Win
    let pos3 = Position::new("BTC".into(), Side::Buy, px(100), SCALE, 0);
    manager.open_position(pos3).unwrap();
    manager.close_position("BTC", px(105), 0).unwrap();

    let win_rate = manager.win_rate();
    assert!((win_rate - 6_660).abs() < 100); // 2/3 = 66.6%
}

#[test]
fn close_unknown_symbol_fails() {
    let mut manager = PositionManager::new();
    let pos = Position::new("BTCUSDT".to_string(), Side::Buy, px(100), SCALE, 0);
    manager.open_position(pos).unwrap();

    assert_eq!(manager.close_position("ETHUSDT", px(100), 0), Err(PositionError::NotFound));
    assert_eq!(manager.position_count(), 1);
}

#[test]
fn exposure_and_totals() {
    let mut manager = PositionManager::new();
    let pos = Position::new("BTCUSDT".to_string(), Side::Buy, px(100), 2 * SCALE, 0);
    manager.open_position(pos).unwrap();

    // notional = 100 * 2 = 200
    assert_eq!(manager.total_exposure(), px(200));

    let prices = vec![("BTCUSDT".to_string(), px(101))];
    // unrealized = (101 - 100) * 2 = 2
    assert_eq!(manager.total_unrealized_pnl(&prices), px(2));

    manager.close_position("BTCUSDT", px(101), 0).unwrap();
    assert_eq!(manager.total_realized_pnl(), px(2));
    assert_eq!(manager.average_trade_pnl(), px(2));
    assert_eq!(manager.total_exposure(), 0);
}

#[test]
fn expiry_is_measured_from_entry() {
    let pos = Position::new_at("BTCUSDT".to_string(), Side::Buy, px(100), SCALE, 0, 1_000);
    assert_eq!(pos.age_at(4_000), 3_000);
    assert!(!pos.is_expired_at(5_000, 4_000));
    assert!(pos.is_expired_at(2_999, 4_000));
}
