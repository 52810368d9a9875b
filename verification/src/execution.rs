//! The decision side of trade execution: position sizing from signal
//! confidence, exit tests, and fee arithmetic. The surrounding process owns
//! the exchange connection and runs these decisions against it.

use vstd::prelude::*;
use crate::num::{SCALE, scale, tdiv, tdiv_i128, clamp_i64, clamp_to_i64};
use crate::types::{Side, valid_price};
use crate::position::{Position, PositionManager, pnl_pct_of};
use crate::risk::{RiskManager, RiskMetrics, drawdown_pct, lat_avg};

verus! {

/// Taker fee rate at fixed-point scale: 0.04%.
pub const TAKER_FEE_RATE: i64 = 4;

/// Sizing multiplier for a confidence: 0.5 at zero confidence, rising
/// linearly to 2.0 at full confidence, at fixed-point scale.
pub open spec fn size_multiplier_of(confidence: int) -> int {
    5_000 + tdiv(15_000 * confidence, scale())
}

/// Position size scaled by the confidence multiplier, saturated at the
/// representable bounds.
pub open spec fn position_size_of(base: int, confidence: int) -> int {
    clamp_i64(tdiv(base * size_multiplier_of(confidence), scale()))
}

/// Scales the base position size by the signal's confidence: half size at
/// zero confidence, double at full confidence.
pub fn calculate_position_size(base_position_size: i64, confidence: i64) -> (r: i64)
    requires
        0 <= confidence <= SCALE,
    ensures
        r as int == position_size_of(base_position_size as int, confidence as int),
{
    proof {
        crate::num::lemma_tdiv_bound(15_000 * (confidence as int), scale(), 15_000int);
        assert(-(scale() * 15_000) <= 15_000 * (confidence as int) <= scale() * 15_000)
            by (nonlinear_arith)
            requires
                0 <= confidence as int <= 10_000,
        ;
    }
    let m: i128 = 5_000i128 + tdiv_i128(15_000i128 * (confidence as i128), SCALE as i128);
    proof {
        assert(-(0x8000_0000_0000_0000int * 20_000) <= (base_position_size as i128) * m
            <= 0x8000_0000_0000_0000int * 20_000) by (nonlinear_arith)
            requires
                -0x8000_0000_0000_0000 <= base_position_size as i128 <= 0x8000_0000_0000_0000,
                -20_000 <= m <= 20_000,
        ;
        crate::num::lemma_tdiv_bound(
            (base_position_size as int) * (m as int),
            scale(),
            0x8000_0000_0000_0000int * 2,
        );
        assert(-(scale() * (0x8000_0000_0000_0000int * 2)) <= (base_position_size as int) * (m
            as int) <= scale() * (0x8000_0000_0000_0000int * 2)) by (nonlinear_arith)
            requires
                -(0x8000_0000_0000_0000int * 20_000) <= (base_position_size as int) * (m as int)
                    <= 0x8000_0000_0000_0000int * 20_000,
        ;
    }
    let raw: i128 = tdiv_i128((base_position_size as i128) * m, SCALE as i128);
    clamp_to_i64(raw)
}

/// Fee charged on an order: notional value times the fee rate.
pub open spec fn order_fee_of(price: int, qty: int, rate: int) -> int {
    clamp_i64(tdiv(tdiv(price * qty, scale()) * rate, scale()))
}

/// Fee charged on an order executed at `price` for `qty`, at the given
/// fixed-point fee rate.
pub fn order_fee(price: i64, qty: i64, rate: i64) -> (r: i64)
    requires
        valid_price(price),
        0 <= qty <= crate::types::MAX_QTY,
        0 <= rate <= 10_000,
    ensures
        r as int == order_fee_of(price as int, qty as int, rate as int),
{
    proof {
        assert(0 <= (price as int) * (qty as int) <= 10_000_000_000_000_000_000_000int)
            by (nonlinear_arith)
            requires
                0 <= price as int <= 1_000_000_000_000,
                0 <= qty as int <= 10_000_000_000,
        ;
        crate::num::lemma_tdiv_bound(
            (price as int) * (qty as int),
            scale(),
            1_000_000_000_000_000_000int,
        );
    }
    let notional: i128 = tdiv_i128((price as i128) * (qty as i128), SCALE as i128);
    proof {
        assert(0 <= notional * (rate as int) <= 10_000_000_000_000_000_000_000int)
            by (nonlinear_arith)
            requires
                0 <= notional <= 1_000_000_000_000_000_000,
                0 <= rate as int <= 10_000,
        ;
        crate::num::lemma_tdiv_bound(
            (notional as int) * (rate as int),
            scale(),
            1_000_000_000_000_000_000int,
        );
    }
    let fee: i128 = tdiv_i128(notional * (rate as i128), SCALE as i128);
    clamp_to_i64(fee)
}

/// Whether an open position should be exited at the given price and
/// instant: profit target reached, loss floor hit, or held too long.
pub fn should_exit(
    position: &Position,
    current_price: i64,
    take_profit_bps: i64,
    stop_loss_bps: i64,
    max_hold_time_ms: u64,
    now_ms: u64,
) -> (r: bool)
    requires
        position.wf(),
        valid_price(current_price),
        stop_loss_bps >= 0,
    ensures
        r == ({
            let pct = pnl_pct_of(
                position.side,
                position.entry_price as int,
                current_price as int,
                position.quantity as int,
                position.fees_paid as int,
            );
            pct >= tdiv(take_profit_bps as int, 100) || pct <= -(stop_loss_bps as int / 100)
                || crate::risk::elapsed_ms(now_ms, position.entry_time_ms) > max_hold_time_ms as int
        }),
{
    position.take_profit_hit(current_price, take_profit_bps) || position.stop_loss_hit(
        current_price,
        stop_loss_bps,
    ) || position.is_expired_at(max_hold_time_ms, now_ms)
}

/// One completed order, as the execution loop reports it.
#[derive(Clone, Debug)]
pub struct ExecutionResult {
    pub order_id: String,
    pub symbol: String,
    pub side: Side,
    pub executed_price: i64,
    pub executed_qty: i64,
    pub latency_ms: u64,
    pub fees: i64,
    pub timestamp_ms: u64,
}

/// A point-in-time summary of trading activity.
#[derive(Clone, Debug)]
pub struct TradingStats {
    pub open_positions: usize,
    pub closed_trades: usize,
    pub total_realized_pnl: i64,
    pub total_fees: i64,
    /// Fraction of closed trades that won, at fixed-point scale.
    pub win_rate: i64,
    pub average_trade_pnl: i64,
    pub risk_metrics: RiskMetrics,
}

impl TradingStats {
    /// Gathers the current statistics from the position book and the risk
    /// manager.
    pub fn collect(pm: &PositionManager, rm: &RiskManager) -> (r: TradingStats)
        requires
            rm.wf(),
        ensures
            r.open_positions == pm.spec_open().len(),
            r.closed_trades == pm.spec_closed().len(),
            r.total_realized_pnl as int == pm.spec_total_realized(),
            r.total_fees as int == pm.spec_total_fees(),
            pm.spec_closed().len() == 0 ==> r.win_rate == 0 && r.average_trade_pnl == 0,
            pm.spec_closed().len() > 0 ==> r.win_rate as int == crate::position::count_wins(
                pm.spec_closed(),
            ) * scale() / (pm.spec_closed().len() as int) && r.average_trade_pnl as int == tdiv(
                pm.spec_total_realized(),
                pm.spec_closed().len() as int,
            ),
            r.risk_metrics.trading_halted == rm.spec_halted(),
            r.risk_metrics.daily_pnl as int == rm.spec_daily_pnl(),
            r.risk_metrics.current_equity as int == rm.spec_cur(),
            r.risk_metrics.peak_equity as int == rm.spec_peak(),
            r.risk_metrics.drawdown_percent as int == clamp_i64(
                drawdown_pct(rm.spec_peak(), rm.spec_cur()),
            ),
    {
        TradingStats {
            open_positions: pm.position_count(),
            closed_trades: pm.closed_positions().len(),
            total_realized_pnl: pm.total_realized_pnl(),
            total_fees: pm.total_fees(),
            win_rate: pm.win_rate(),
            average_trade_pnl: pm.average_trade_pnl(),
            risk_metrics: rm.get_metrics(),
        }
    }
}

} // verus!
