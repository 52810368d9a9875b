use front_run_vanilla::num::SCALE;
use front_run_vanilla::risk::{RiskLimits, RiskManager, ViolationSeverity};

fn money(units: i64) -> i64 {
    units * SCALE
}

#[test]
fn test_position_size_limit() {
    let limits = RiskLimits::default();
    let mut manager = RiskManager::new(limits, money(10000));

    // Within limit
    assert!(manager.can_open_position(money(4000), 0).is_ok());

    // Exceeds limit
    let result = manager.can_open_position(money(6000), 0);
    assert!(result.is_err());
    assert_eq!(result.unwrap_err().severity, ViolationSeverity::Block);
}

#[test]
fn test_portfolio_exposure_limit() {
    let limits = RiskLimits::default();
    let mut manager = RiskManager::new(limits, money(10000));

    // Current exposure + new position exceeds limit
    let result = manager.can_open_position(money(3000), money(8000));
    assert!(result.is_err());
}

#[test]
fn test_daily_loss_limit() {
    let limits = RiskLimits::default();
    let mut manager = RiskManager::new(limits, money(10000));

    // Record losing trades
    manager.record_trade(money(-200));
    manager.record_trade(money(-200));
    manager.record_trade(money(-150));

    // Should halt trading
    let result = manager.can_open_position(money(1000), 0);
    assert!(result.is_err());
    assert_eq!(result.unwrap_err().severity, ViolationSeverity::Emergency);
    assert!(manager.is_halted());
}

#[test]
fn test_drawdown_limit() {
    let limits = RiskLimits::default();
    let mut manager = RiskManager::new(limits, money(10000));

    // Simulate 11% drawdown
    manager.record_trade(money(-1100));

    let result = manager.can_open_position(money(1000), 0);
    assert!(result.is_err());
    assert!(manager.is_halted());
}

#[test]
fn test_hourly_trade_limit() {
    let mut limits = RiskLimits::default();
    limits.max_trades_per_hour = 5;
    let mut manager = RiskManager::new(limits, money(10000));

    // Record 5 trades
    for _ in 0..5 {
        manager.record_trade(money(10));
    }

    // 6th trade should be blocked
    let result = manager.can_open_position(money(1000), 0);
    assert!(result.is_err());
}

#[test]
fn test_latency_tracking() {
    let limits = RiskLimits::default();
    let mut manager = RiskManager::new(limits, money(10000));

    // Record normal latencies
    for _ in 0..5 {
        manager.record_latency(50);
    }

    assert!(manager.get_metrics().average_latency_ms.unwrap() == 50);

    // Record high latencies
    for _ in 0..10 {
        manager.record_latency(600); // Above limit
    }

    // Should halt trading after consistent high latency
    assert!(manager.is_halted());
}

#[test]
fn test_resume_trading() {
    let limits = RiskLimits::default();
    let mut manager = RiskManager::new(limits, money(10000));

    manager.halt_trading("Test halt");
    assert!(manager.is_halted());

    manager.resume_trading();
    assert!(!manager.is_halted());
}

#[test]
fn daily_loss_halt_is_sticky_until_resume() {
    // equity 10000, max daily loss 500: trades summing to -550 make the
    // next admission fail with Emergency, and only resume clears the halt
    let limits = RiskLimits::default();
    let mut manager = RiskManager::new(limits, money(10000));

    manager.record_trade(money(-300));
    manager.record_trade(money(-250));

    let result = manager.can_open_position(money(100), 0);
    assert_eq!(result.unwrap_err().severity, ViolationSeverity::Emergency);
    assert!(manager.is_halted());

    // recording a winning trade does not clear the halt
    manager.record_trade(money(600));
    assert!(manager.is_halted());
    let again = manager.can_open_position(money(100), 0);
    assert_eq!(again.unwrap_err().severity, ViolationSeverity::Emergency);

    manager.resume_trading();
    assert!(!manager.is_halted());
}

#[test]
fn eight_of_ten_high_latencies_trip_the_breaker() {
    // 10 readings at 600 ms against a 500 ms limit flip the halt
    let limits = RiskLimits::default();
    let mut manager = RiskManager::new(limits, money(10000));

    for _ in 0..9 {
        manager.record_latency(600);
        // fewer than ten readings yet: no halt can have tripped before ten
    }
    assert!(!manager.is_halted());
    manager.record_latency(600);
    assert!(manager.is_halted());
}

#[test]
fn seven_highs_do_not_trip_the_breaker() {
    let limits = RiskLimits::default();
    let mut manager = RiskManager::new(limits, money(10000));

    for _ in 0..7 {
        manager.record_latency(600);
    }
    for _ in 0..3 {
        manager.record_latency(100);
    }
    assert!(!manager.is_halted());
}

#[test]
fn metrics_report_the_state() {
    let limits = RiskLimits::default();
    let mut manager = RiskManager::new(limits, money(10000));
    manager.record_trade(money(-100));

    let m = manager.get_metrics();
    assert_eq!(m.daily_pnl, money(-100));
    assert_eq!(m.daily_trades, 1);
    assert_eq!(m.current_equity, money(9900));
    assert_eq!(m.peak_equity, money(10000));
    // drawdown = 100 / 10000 = 1%
    assert_eq!(m.drawdown_percent, SCALE);
    assert!(!m.trading_halted);
}
