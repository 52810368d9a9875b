use front_run_vanilla::backtest::{
    simulate_fill, BacktestConfig, BacktestEngine, BacktestError, BacktestEvent, BacktestResults,
    BacktestTrade,
};
use front_run_vanilla::book::BookError;
use front_run_vanilla::num::SCALE;
use front_run_vanilla::types::Side;

fn px(units: i64) -> i64 {
    units * SCALE
}

#[test]
fn test_backtest_engine_creation() {
    let config = BacktestConfig::default();
    let engine = BacktestEngine::new(config);

    assert_eq!(engine.equity(), px(10000));
    assert_eq!(engine.position_manager().position_count(), 0);
}

#[test]
fn processing_events_tracks_time_and_equity() {
    let config = BacktestConfig::default();
    let mut engine = BacktestEngine::new(config);

    let event = BacktestEvent::OrderBookUpdate {
        timestamp_ms: 1_000,
        bids: vec![(px(100), px(5))],
        asks: vec![(px(101), px(5))],
    };
    engine.process_event(event).unwrap();

    assert_eq!(engine.current_time_ms(), 1_000);
    let results = engine.get_results();
    assert_eq!(results.final_equity, px(10000));
    assert_eq!(results.equity_curve.len(), 1);
    assert_eq!(results.equity_curve[0], (1_000, px(10000)));
    assert_eq!(results.total_trades, 0);
}

#[test]
fn invalid_depth_level_is_rejected() {
    let config = BacktestConfig::default();
    let mut engine = BacktestEngine::new(config);

    let event = BacktestEvent::OrderBookUpdate {
        timestamp_ms: 1_000,
        bids: vec![(px(100), -1)],
        asks: vec![],
    };
    assert_eq!(
        engine.process_event(event),
        Err(BacktestError::InvalidLevel(BookError::InvalidQuantity))
    );
}

#[test]
fn simulated_fill_applies_slippage_and_commission() {
    // buy 1000 notional at price 100 with 2 bps slippage, 4 bps commission
    let fill = simulate_fill(Side::Buy, px(100), px(1000), 2 * SCALE, 4 * SCALE).unwrap();
    // slippage: 100 * 0.0002 = 0.02
    assert_eq!(fill.slippage, 200);
    assert_eq!(fill.price, px(100) + 200);
    // commission: 1000 * 0.0004 = 0.4
    assert_eq!(fill.commission, 4_000);
    // quantity: 1000 / 100.02 = 9.998
    assert_eq!(fill.quantity, px(1000) * SCALE / (px(100) + 200));

    let sell = simulate_fill(Side::Sell, px(100), px(1000), 2 * SCALE, 4 * SCALE).unwrap();
    assert_eq!(sell.price, px(100) - 200);
}

#[test]
fn results_summarize_trades() {
    let config = BacktestConfig::default();
    let mk = |pnl: i64| BacktestTrade {
        entry_time_ms: 0,
        exit_time_ms: 1,
        side: Side::Buy,
        entry_price: px(100),
        exit_price: px(101),
        quantity: SCALE,
        pnl,
        fees: 0,
    };
    let trades = vec![mk(px(10)), mk(px(-5)), mk(px(5))];
    let curve = vec![(0u64, px(10010)), (1u64, px(10005)), (2u64, px(10010))];
    let results = BacktestResults::new(config, trades, curve, px(10010));

    assert_eq!(results.total_return, px(10));
    // 10 / 10000 = 0.1%
    assert_eq!(results.total_return_pct, 1_000);
    assert_eq!(results.total_trades, 3);
    assert_eq!(results.winning_trades, 2);
    assert_eq!(results.losing_trades, 1);
    assert_eq!(results.win_rate, 6_666);
    // gross wins 15 over gross losses 5
    assert_eq!(results.profit_factor, Some(3 * SCALE));
    assert_eq!(results.average_win, px(15) / 2);
    assert_eq!(results.average_loss, px(5));
    assert_eq!(results.largest_win, px(10));
    assert_eq!(results.largest_loss, px(-5));
    // equity dipped 5 below its 10010 peak
    assert_eq!(results.max_drawdown, px(5));
}

#[test]
fn profit_factor_is_unbounded_without_losses() {
    let config = BacktestConfig::default();
    let win = BacktestTrade {
        entry_time_ms: 0,
        exit_time_ms: 1,
        side: Side::Buy,
        entry_price: px(100),
        exit_price: px(101),
        quantity: SCALE,
        pnl: px(1),
        fees: 0,
    };
    let results = BacktestResults::new(config, vec![win], vec![], px(10001));
    assert_eq!(results.profit_factor, None);

    let config2 = BacktestConfig::default();
    let empty = BacktestResults::new(config2, vec![], vec![], px(10000));
    assert_eq!(empty.profit_factor, Some(0));
    assert_eq!(empty.sharpe_ratio, 0);
}

#[test]
fn balanced_replay_emits_no_trades() {
    // a balanced book for 100 updates: z-scores stay inside the threshold
    // and the engine never trades
    let config = BacktestConfig::default();
    let mut engine = BacktestEngine::new(config);

    for i in 0..100u64 {
        let event = BacktestEvent::OrderBookUpdate {
            timestamp_ms: i * 100,
            bids: vec![(px(100), px(5))],
            asks: vec![(px(101), px(5))],
        };
        engine.process_event(event).unwrap();
    }

    let results = engine.get_results();
    assert_eq!(results.total_trades, 0);
    assert_eq!(results.final_equity, px(10000));
}
