//! Backtesting engine: replays market events through the live decision
//! core — order book, detectors, aggregator and risk manager — against
//! simulated fills with slippage and commission.
//!
//! Time comes from the replayed events, never from the wall clock, so a
//! replay is deterministic.

use vstd::prelude::*;
use vstd::string::StringExecFns;
use crate::num::{SCALE, scale, tdiv, tdiv_i128, clamp_i64, clamp_i128, clamp_to_i64, sat_add_i64,
    sat_add_i128, floor_sqrt, is_floor_sqrt, isqrt_u128};
use crate::types::{Side, Trade, PriceLevel, valid_price, valid_qty, MAX_PRICE, MAX_QTY};
use crate::book::{OrderBook, BookError};
use crate::imbalance::ImbalanceDetector;
use crate::flow::FlowAnalyzer;
use crate::composite::{SignalAggregator, CompositeSignal};
use crate::position::{Position, PositionManager};
use crate::risk::{RiskManager, RiskLimits};

verus! {

/// Backtest parameters; money and bps values at fixed-point scale.
#[derive(Clone, Debug)]
pub struct BacktestConfig {
    pub symbol: String,
    pub initial_capital: i64,
    pub position_size: i64,
    pub take_profit_bps: i64,
    pub stop_loss_bps: i64,
    pub max_hold_time_ms: u64,
    pub slippage_bps: i64,
    pub commission_bps: i64,
    pub latency_ms: u64,
}

impl BacktestConfig {
    /// Positive capital, non-negative sizes and rates, and rates within
    /// one whole (10000 bps at scale).
    pub open spec fn wf(self) -> bool {
        &&& 1 <= self.initial_capital
        &&& 0 <= self.position_size <= 1_000_000_000_000_000_000
        &&& 0 <= self.take_profit_bps
        &&& 0 <= self.stop_loss_bps
        &&& 0 <= self.slippage_bps <= 100_000_000
        &&& 0 <= self.commission_bps <= 100_000_000
    }
}

impl Default for BacktestConfig {
    /// The demonstration defaults: 10000 capital, 1000 position size,
    /// 10/5 bps exits, 5 s holding, 2 bps slippage, 4 bps commission.
    fn default() -> (r: BacktestConfig)
        ensures
            r.wf(),
            r.symbol@ == "BTCUSDT"@,
            r.initial_capital == 100_000_000,
            r.position_size == 10_000_000,
            r.take_profit_bps == 100_000,
            r.stop_loss_bps == 50_000,
            r.max_hold_time_ms == 5000,
            r.slippage_bps == 20_000,
            r.commission_bps == 40_000,
            r.latency_ms == 100,
    {
        BacktestConfig {
            symbol: <String as StringExecFns>::from_str("BTCUSDT"),
            initial_capital: 100_000_000,
            position_size: 10_000_000,
            take_profit_bps: 100_000,
            stop_loss_bps: 50_000,
            max_hold_time_ms: 5000,
            slippage_bps: 20_000,
            commission_bps: 40_000,
            latency_ms: 100,
        }
    }
}

/// A replayed market event.
#[derive(Clone, Debug)]
pub enum BacktestEvent {
    OrderBookUpdate { timestamp_ms: u64, bids: Vec<(i64, i64)>, asks: Vec<(i64, i64)> },
    Trade { timestamp_ms: u64, trade: Trade },
}

/// A simulated fill: the executed price after slippage, the filled
/// quantity, and the costs.
#[derive(Clone, Copy, Debug, PartialEq, Eq, Structural)]
pub struct SimulatedFill {
    pub price: i64,
    pub quantity: i64,
    pub slippage: i64,
    pub commission: i64,
}

/// What a replay can reject.
#[derive(Clone, Copy, Debug, PartialEq, Eq, Structural)]
pub enum BacktestError {
    /// A depth level or trade carried an out-of-range price or quantity.
    InvalidLevel(BookError),
    /// A fill was needed while the book had no mid price.
    NoMidPrice,
    /// A close was requested with no matching open position.
    PositionNotFound,
}

/// Slippage paid on a fill: the price times the slippage rate.
pub open spec fn slip_of(price: int, slippage_bps: int) -> int {
    price * slippage_bps / 100_000_000
}

/// Commission paid on a fill: the notional times the commission rate.
pub open spec fn commission_of(notional: int, commission_bps: int) -> int {
    notional * commission_bps / 100_000_000
}

/// The simulated fill: buys pay the slippage, sells receive less; the
/// quantity is the notional at the slipped price. Nothing when the slipped
/// price is not positive.
pub open spec fn fill_of(side: Side, price: int, notional: int, slippage_bps: int,
    commission_bps: int) -> Option<SimulatedFill> {
    let slip = slip_of(price, slippage_bps);
    let fp = if side is Buy {
        price + slip
    } else {
        price - slip
    };
    if fp <= 0 {
        None
    } else {
        Some(
            SimulatedFill {
                price: fp as i64,
                quantity: clamp_i64(notional * scale() / fp) as i64,
                slippage: slip as i64,
                commission: commission_of(notional, commission_bps) as i64,
            },
        )
    }
}

/// Simulates a fill with slippage and commission.
pub fn simulate_fill(side: Side, price: i64, notional: i64, slippage_bps: i64, commission_bps: i64) -> (r:
    Option<SimulatedFill>)
    requires
        valid_price(price),
        0 <= notional <= 1_000_000_000_000_000_000,
        0 <= slippage_bps <= 100_000_000,
        0 <= commission_bps <= 100_000_000,
    ensures
        r == fill_of(
            side,
            price as int,
            notional as int,
            slippage_bps as int,
            commission_bps as int,
        ),
        r matches Some(f) ==> 0 < f.price <= 2 * (price as int) && 0 <= f.slippage <= price && 0
            <= f.commission <= notional && 0 <= f.quantity,
{
    proof {
        lemma_rate_product(price as int, slippage_bps as int);
        lemma_rate_product(notional as int, commission_bps as int);
    }
    let slip: i64 = (((price as i128) * (slippage_bps as i128)) / 100_000_000i128) as i64;
    let fp: i64 = match side {
        Side::Buy => price + slip,
        Side::Sell => price - slip,
    };
    if fp <= 0 {
        return None;
    }
    let commission: i64 = (((notional as i128) * (commission_bps as i128)) / 100_000_000i128)
        as i64;
    proof {
        vstd::arithmetic::div_mod::lemma_div_pos_is_pos(
            (notional as int) * scale(),
            fp as int,
        );
        assert(0 <= (notional as int) * scale() <= 10_000_000_000_000_000_000_000int)
            by (nonlinear_arith)
            requires
                0 <= notional as int <= 1_000_000_000_000_000_000,
        ;
    }
    let qty: i64 = clamp_to_i64(((notional as i128) * (SCALE as i128)) / (fp as i128));
    Some(SimulatedFill { price: fp, quantity: qty, slippage: slip, commission })
}

/// A non-negative rate applied to a bounded amount stays within the
/// amount's own bound.
proof fn lemma_rate_product(amount: int, rate: int)
    requires
        0 <= amount <= 1_000_000_000_000_000_000,
        0 <= rate <= 100_000_000,
    ensures
        0 <= amount * rate / 100_000_000 <= amount,
        amount * rate <= 100_000_000_000_000_000_000_000_000_000int,
{
    vstd::arithmetic::div_mod::lemma_div_pos_is_pos(amount * rate, 100_000_000);
    assert(0 <= amount * rate <= amount * 100_000_000) by (nonlinear_arith)
        requires
            0 <= amount,
            0 <= rate <= 100_000_000,
    ;
    vstd::arithmetic::div_mod::lemma_div_is_ordered(
        amount * rate,
        amount * 100_000_000,
        100_000_000,
    );
    vstd::arithmetic::div_mod::lemma_div_multiples_vanish(amount, 100_000_000);
}

/// One completed round trip in a replay.
#[derive(Clone, Copy, Debug, PartialEq, Eq, Structural)]
pub struct BacktestTrade {
    pub entry_time_ms: u64,
    pub exit_time_ms: u64,
    pub side: Side,
    pub entry_price: i64,
    pub exit_price: i64,
    pub quantity: i64,
    pub pnl: i64,
    pub fees: i64,
}

/// How many recorded trades won.
pub open spec fn bt_count_wins(ts: Seq<BacktestTrade>) -> int
    decreases ts.len(),
{
    if ts.len() == 0 {
        0
    } else {
        bt_count_wins(ts.drop_last()) + (if ts.last().pnl > 0 {
            1int
        } else {
            0int
        })
    }
}

/// How many recorded trades lost.
pub open spec fn bt_count_losses(ts: Seq<BacktestTrade>) -> int
    decreases ts.len(),
{
    if ts.len() == 0 {
        0
    } else {
        bt_count_losses(ts.drop_last()) + (if ts.last().pnl < 0 {
            1int
        } else {
            0int
        })
    }
}

/// Saturating sum of the winning trades' profits.
pub open spec fn bt_sum_wins(ts: Seq<BacktestTrade>) -> int
    decreases ts.len(),
{
    if ts.len() == 0 {
        0
    } else {
        let rest = bt_sum_wins(ts.drop_last());
        if ts.last().pnl > 0 {
            clamp_i64(rest + ts.last().pnl)
        } else {
            rest
        }
    }
}

/// Saturating sum of the losing trades' loss magnitudes.
pub open spec fn bt_sum_losses(ts: Seq<BacktestTrade>) -> int
    decreases ts.len(),
{
    if ts.len() == 0 {
        0
    } else {
        let rest = bt_sum_losses(ts.drop_last());
        if ts.last().pnl < 0 {
            clamp_i64(rest + -(ts.last().pnl as int))
        } else {
            rest
        }
    }
}

/// The largest winning profit, zero without wins.
pub open spec fn bt_max_win(ts: Seq<BacktestTrade>) -> int
    decreases ts.len(),
{
    if ts.len() == 0 {
        0
    } else {
        let rest = bt_max_win(ts.drop_last());
        if ts.last().pnl > rest {
            ts.last().pnl as int
        } else {
            rest
        }
    }
}

/// The most negative losing profit, zero without losses.
pub open spec fn bt_min_loss(ts: Seq<BacktestTrade>) -> int
    decreases ts.len(),
{
    if ts.len() == 0 {
        0
    } else {
        let rest = bt_min_loss(ts.drop_last());
        if (ts.last().pnl as int) < rest {
            ts.last().pnl as int
        } else {
            rest
        }
    }
}

/// Saturating sum of all recorded profits.
pub open spec fn bt_sum_pnl(ts: Seq<BacktestTrade>) -> int
    decreases ts.len(),
{
    if ts.len() == 0 {
        0
    } else {
        clamp_i64(bt_sum_pnl(ts.drop_last()) + ts.last().pnl)
    }
}

/// Saturating sum of squared (clamped) deviations of the profits from `m`.
pub open spec fn bt_sq_dev(ts: Seq<BacktestTrade>, m: int) -> int
    decreases ts.len(),
{
    if ts.len() == 0 {
        0
    } else {
        let d = clamp_i64(ts.last().pnl - m);
        clamp_i128(bt_sq_dev(ts.drop_last(), m) + d * d)
    }
}

/// Running equity peak over the first `i` curve points.
pub open spec fn run_peak(s: Seq<(u64, i64)>, init: int, i: int) -> int
    decreases i,
{
    if i <= 0 {
        init
    } else {
        let p = run_peak(s, init, i - 1);
        if s[i - 1].1 > p {
            s[i - 1].1 as int
        } else {
            p
        }
    }
}

/// Largest drawdown from the running peak over the first `i` points.
pub open spec fn run_maxdd(s: Seq<(u64, i64)>, init: int, i: int) -> int
    decreases i,
{
    if i <= 0 {
        0
    } else {
        let p = run_peak(s, init, i);
        let dd = clamp_i64(p - s[i - 1].1);
        let prev = run_maxdd(s, init, i - 1);
        if dd > prev {
            dd
        } else {
            prev
        }
    }
}

/// Replay results and summary statistics. Sums saturate at the
/// representable bounds; averages and ratios truncate.
#[derive(Clone, Debug)]
pub struct BacktestResults {
    pub config: BacktestConfig,
    pub trades: Vec<BacktestTrade>,
    pub equity_curve: Vec<(u64, i64)>,
    pub final_equity: i64,
    pub total_return: i64,
    pub total_return_pct: i64,
    pub total_trades: usize,
    pub winning_trades: usize,
    pub losing_trades: usize,
    /// Fraction of trades that won, at fixed-point scale.
    pub win_rate: i64,
    /// Gross wins over gross losses at fixed-point scale; nothing when
    /// there were wins but no losses (an unbounded ratio).
    pub profit_factor: Option<i64>,
    pub average_win: i64,
    pub average_loss: i64,
    pub largest_win: i64,
    pub largest_loss: i64,
    pub max_drawdown: i64,
    pub max_drawdown_pct: i64,
    /// Mean trade profit over its standard deviation, at fixed-point scale.
    pub sharpe_ratio: i64,
}

impl BacktestResults {
    /// Computes the summary statistics of a finished replay.
    pub fn new(
        config: BacktestConfig,
        trades: Vec<BacktestTrade>,
        equity_curve: Vec<(u64, i64)>,
        final_equity: i64,
    ) -> (r: BacktestResults)
        requires
            config.wf(),
        ensures
            r.trades@ == trades@,
            r.equity_curve@ == equity_curve@,
            r.final_equity == final_equity,
            r.total_return as int == clamp_i64(final_equity - config.initial_capital),
            r.total_return_pct as int == clamp_i64(
                tdiv(
                    clamp_i64(final_equity - config.initial_capital) * 100 * scale(),
                    config.initial_capital as int,
                ),
            ),
            r.total_trades == trades@.len(),
            r.winning_trades as int == bt_count_wins(trades@),
            r.losing_trades as int == bt_count_losses(trades@),
            trades@.len() == 0 ==> r.win_rate == 0,
            trades@.len() > 0 ==> r.win_rate as int == bt_count_wins(trades@) * scale() / (
            trades@.len() as int),
            r.profit_factor == (if bt_sum_losses(trades@) == 0 {
                if bt_sum_wins(trades@) == 0 {
                    Some(0i64)
                } else {
                    Option::<i64>::None
                }
            } else {
                Some(
                    clamp_i64(
                        bt_sum_wins(trades@) * scale() / bt_sum_losses(trades@),
                    ) as i64,
                )
            }),
            r.average_win as int == (if bt_count_wins(trades@) == 0 {
                0
            } else {
                bt_sum_wins(trades@) / bt_count_wins(trades@)
            }),
            r.average_loss as int == (if bt_count_losses(trades@) == 0 {
                0
            } else {
                bt_sum_losses(trades@) / bt_count_losses(trades@)
            }),
            r.largest_win as int == bt_max_win(trades@),
            r.largest_loss as int == bt_min_loss(trades@),
            r.max_drawdown as int == run_maxdd(
                equity_curve@,
                config.initial_capital as int,
                equity_curve@.len() as int,
            ),
            max_drawdown_pct_ok(
                r.max_drawdown_pct as int,
                run_maxdd(equity_curve@, config.initial_capital as int, equity_curve@.len() as int),
                run_peak(equity_curve@, config.initial_capital as int, equity_curve@.len() as int),
            ),
            r.sharpe_ratio as int == sharpe_of(trades@),
    {
        let total_return = sat_add_i64(final_equity, -config.initial_capital);
        proof {
            crate::num::lemma_tdiv_bound(
                clamp_i64(final_equity - config.initial_capital) * 100 * scale(),
                config.initial_capital as int,
                0x8000_0000_0000_0000int * 1_000_000,
            );
            assert(-(clamp_i64(final_equity - config.initial_capital) * 1_000_000)
                >= -0x8000_0000_0000_0000int * 1_000_000 && clamp_i64(
                final_equity - config.initial_capital,
            ) * 1_000_000 <= 0x8000_0000_0000_0000int * 1_000_000) by (nonlinear_arith)
                requires
                    -0x8000_0000_0000_0000 <= clamp_i64(final_equity - config.initial_capital)
                        <= 0x8000_0000_0000_0000,
            ;
            assert(clamp_i64(final_equity - config.initial_capital) * 100 * scale() == clamp_i64(
                final_equity - config.initial_capital,
            ) * 1_000_000) by (nonlinear_arith);
            assert((config.initial_capital as int) * (0x8000_0000_0000_0000int * 1_000_000)
                >= 0x8000_0000_0000_0000int * 1_000_000) by (nonlinear_arith)
                requires
                    config.initial_capital >= 1,
            ;
        }
        let total_return_pct = clamp_to_i64(
            tdiv_i128((total_return as i128) * 1_000_000i128, config.initial_capital as i128),
        );

        let n = trades.len();
        let mut wins: usize = 0;
        let mut losses: usize = 0;
        let mut sum_wins: i64 = 0;
        let mut sum_losses: i64 = 0;
        let mut max_win: i64 = 0;
        let mut min_loss: i64 = 0;
        let mut sum_pnl: i64 = 0;
        let mut i: usize = 0;
        while i < n
            invariant
                0 <= i <= n,
                n == trades@.len(),
                wins as int == bt_count_wins(trades@.take(i as int)),
                losses as int == bt_count_losses(trades@.take(i as int)),
                wins <= i,
                losses <= i,
                sum_wins as int == bt_sum_wins(trades@.take(i as int)),
                sum_losses as int == bt_sum_losses(trades@.take(i as int)),
                0 <= sum_wins,
                0 <= sum_losses,
                max_win as int == bt_max_win(trades@.take(i as int)),
                min_loss as int == bt_min_loss(trades@.take(i as int)),
                0 <= max_win,
                min_loss <= 0,
                sum_pnl as int == bt_sum_pnl(trades@.take(i as int)),
            decreases n - i,
        {
            proof {
                assert(trades@.take(i + 1).drop_last() =~= trades@.take(i as int));
                assert(trades@.take(i + 1).last() == trades@[i as int]);
            }
            let pnl = trades[i].pnl;
            if pnl > 0 {
                wins = wins + 1;
                sum_wins = sat_add_i64(sum_wins, pnl);
                if pnl > max_win {
                    max_win = pnl;
                }
            } else if pnl < 0 {
                losses = losses + 1;
                if pnl == i64::MIN {
                    sum_losses = clamp_to_i64((sum_losses as i128) + 9_223_372_036_854_775_808i128);
                } else {
                    sum_losses = sat_add_i64(sum_losses, -pnl);
                }
                if pnl < min_loss {
                    min_loss = pnl;
                }
            }
            sum_pnl = sat_add_i64(sum_pnl, pnl);
            i = i + 1;
        }
        proof {
            assert(trades@.take(n as int) =~= trades@);
        }

        let win_rate: i64 = if n == 0 {
            0
        } else {
            proof {
                vstd::arithmetic::div_mod::lemma_div_pos_is_pos((wins as int) * scale(), n as int);
                assert((wins as int) * scale() >= 0) by (nonlinear_arith)
                    requires
                        wins >= 0,
                ;
                assert((wins as int) * scale() <= (n as int) * scale()) by (nonlinear_arith)
                    requires
                        0 <= wins as int <= n as int,
                ;
                vstd::arithmetic::div_mod::lemma_div_is_ordered(
                    (wins as int) * scale(),
                    (n as int) * scale(),
                    n as int,
                );
                vstd::arithmetic::div_mod::lemma_div_multiples_vanish(scale(), n as int);
            }
            (((wins as i128) * (SCALE as i128)) / (n as i128)) as i64
        };

        let profit_factor: Option<i64> = if sum_losses == 0 {
            if sum_wins == 0 {
                Some(0)
            } else {
                None
            }
        } else {
            proof {
                vstd::arithmetic::div_mod::lemma_div_pos_is_pos(
                    (sum_wins as int) * scale(),
                    sum_losses as int,
                );
                assert((sum_wins as int) * scale() >= 0) by (nonlinear_arith)
                    requires
                        sum_wins >= 0,
                ;
            }
            Some(clamp_to_i64(((sum_wins as i128) * (SCALE as i128)) / (sum_losses as i128)))
        };

        let average_win: i64 = if wins == 0 {
            0
        } else {
            proof {
                vstd::arithmetic::div_mod::lemma_div_pos_is_pos(sum_wins as int, wins as int);
                vstd::arithmetic::div_mod::lemma_div_is_ordered_by_denominator(
                    sum_wins as int,
                    1,
                    wins as int,
                );
                vstd::arithmetic::div_mod::lemma_div_basics_2(sum_wins as int);
            }
            ((sum_wins as i128) / (wins as i128)) as i64
        };
        let average_loss: i64 = if losses == 0 {
            0
        } else {
            proof {
                vstd::arithmetic::div_mod::lemma_div_pos_is_pos(sum_losses as int, losses as int);
                vstd::arithmetic::div_mod::lemma_div_is_ordered_by_denominator(
                    sum_losses as int,
                    1,
                    losses as int,
                );
                vstd::arithmetic::div_mod::lemma_div_basics_2(sum_losses as int);
            }
            ((sum_losses as i128) / (losses as i128)) as i64
        };

        // largest drawdown over the equity curve
        let m = equity_curve.len();
        let mut peak: i64 = config.initial_capital;
        let mut max_dd: i64 = 0;
        let mut j: usize = 0;
        while j < m
            invariant
                0 <= j <= m,
                m == equity_curve@.len(),
                config.wf(),
                peak as int == run_peak(
                    equity_curve@,
                    config.initial_capital as int,
                    j as int,
                ),
                max_dd as int == run_maxdd(
                    equity_curve@,
                    config.initial_capital as int,
                    j as int,
                ),
            decreases m - j,
        {
            let eq = equity_curve[j].1;
            if eq > peak {
                peak = eq;
            }
            let dd = clamp_to_i64((peak as i128) - (eq as i128));
            if dd > max_dd {
                max_dd = dd;
            }
            j = j + 1;
        }
        let max_drawdown = max_dd;
        let max_drawdown_pct: i64 = if peak <= 0 {
            0
        } else {
            proof {
                assert((max_dd as int) * 1_000_000 >= 0) by (nonlinear_arith)
                    requires
                        max_dd >= 0,
                ;
                vstd::arithmetic::div_mod::lemma_div_pos_is_pos(
                    (max_dd as int) * 1_000_000,
                    peak as int,
                );
            }
            clamp_to_i64(((max_dd as i128) * 1_000_000i128) / (peak as i128))
        };

        let sharpe_ratio = calc_sharpe(&trades, sum_pnl);

        proof {
            assert(max_drawdown_pct_ok(max_drawdown_pct as int, max_dd as int, peak as int));
        }

        BacktestResults {
            config,
            trades,
            equity_curve,
            final_equity,
            total_return,
            total_return_pct,
            total_trades: n,
            winning_trades: wins,
            losing_trades: losses,
            win_rate,
            profit_factor,
            average_win,
            average_loss,
            largest_win: max_win,
            largest_loss: min_loss,
            max_drawdown,
            max_drawdown_pct,
            sharpe_ratio,
        }
    }
}

/// The drawdown percentage field agrees with its inputs.
pub open spec fn max_drawdown_pct_ok(pct: int, max_dd: int, peak: int) -> bool {
    if peak <= 0 {
        pct == 0
    } else {
        pct == clamp_i64(max_dd * 1_000_000 / peak)
    }
}

/// Sharpe ratio of the recorded profits: their (saturated) mean over their
/// (clamped) population standard deviation, at fixed-point scale; zero
/// below two trades or at zero deviation.
pub open spec fn sharpe_of(ts: Seq<BacktestTrade>) -> int {
    if ts.len() < 2 {
        0
    } else {
        let mean = tdiv(bt_sum_pnl(ts), ts.len() as int);
        let var = bt_sq_dev(ts, mean) / ts.len() as int;
        let sd = floor_sqrt(var);
        if sd == 0 {
            0
        } else {
            clamp_i64(tdiv(mean * scale(), sd))
        }
    }
}

/// Computes the Sharpe ratio given the saturated profit sum.
fn calc_sharpe(trades: &Vec<BacktestTrade>, sum_pnl: i64) -> (r: i64)
    requires
        sum_pnl as int == bt_sum_pnl(trades@),
    ensures
        r as int == sharpe_of(trades@),
{
    let n = trades.len();
    if n < 2 {
        return 0;
    }
    proof {
        crate::num::lemma_tdiv_bound(sum_pnl as int, n as int, 0x8000_0000_0000_0000int);
        assert(-((n as int) * 0x8000_0000_0000_0000) <= sum_pnl as int <= (n as int)
            * 0x8000_0000_0000_0000) by (nonlinear_arith)
            requires
                n >= 2,
                -0x8000_0000_0000_0000 <= sum_pnl as int <= 0x8000_0000_0000_0000,
        ;
    }
    let mean: i64 = tdiv_i128(sum_pnl as i128, n as i128) as i64;
    let ghost mspec = tdiv(bt_sum_pnl(trades@), trades@.len() as int);

    let mut acc: i128 = 0;
    let mut i: usize = 0;
    while i < n
        invariant
            0 <= i <= n,
            n == trades@.len(),
            mean as int == mspec,
            acc as int == bt_sq_dev(trades@.take(i as int), mspec),
            0 <= acc,
        decreases n - i,
    {
        proof {
            assert(trades@.take(i + 1).drop_last() =~= trades@.take(i as int));
            assert(trades@.take(i + 1).last() == trades@[i as int]);
        }
        let d: i64 = clamp_to_i64((trades[i].pnl as i128) - (mean as i128));
        proof {
            assert(0 <= (d as int) * (d as int) <= 0x8000_0000_0000_0000int
                * 0x8000_0000_0000_0000int) by (nonlinear_arith)
                requires
                    -0x8000_0000_0000_0000 <= d as int <= 0x8000_0000_0000_0000,
            ;
        }
        acc = sat_add_i128(acc, (d as i128) * (d as i128));
        i = i + 1;
    }
    proof {
        assert(trades@.take(n as int) =~= trades@);
        vstd::arithmetic::div_mod::lemma_div_pos_is_pos(acc as int, n as int);
        vstd::arithmetic::div_mod::lemma_div_is_ordered_by_denominator(acc as int, 1, n as int);
        vstd::arithmetic::div_mod::lemma_div_basics_2(acc as int);
    }
    let var: i128 = acc / (n as i128);
    let sd: u64 = isqrt_u128(var as u128);
    if sd == 0 {
        0
    } else {
        proof {
            assert(-((sd as int) * (clamp_i64_abs_bound(mspec) * 10_000)) <= mspec * scale()
                <= (sd as int) * (clamp_i64_abs_bound(mspec) * 10_000)) by (nonlinear_arith)
                requires
                    sd >= 1,
                    -clamp_i64_abs_bound(mspec) <= mspec <= clamp_i64_abs_bound(mspec),
                    clamp_i64_abs_bound(mspec) >= 0,
            ;
            crate::num::lemma_tdiv_bound(
                mspec * scale(),
                sd as int,
                clamp_i64_abs_bound(mspec) * 10_000,
            );
        }
        clamp_to_i64(tdiv_i128((mean as i128) * (SCALE as i128), sd as i128))
    }
}

/// A magnitude bound for a value already in the `i64` range.
pub open spec fn clamp_i64_abs_bound(x: int) -> int {
    if x >= 0 {
        x
    } else {
        -x
    }
}

/// The backtesting engine: the verified decision core driven by replayed
/// events.
#[derive(Debug)]
pub struct BacktestEngine {
    config: BacktestConfig,
    orderbook: OrderBook,
    position_manager: PositionManager,
    risk_manager: RiskManager,
    imbalance_detector: ImbalanceDetector,
    flow_analyzer: FlowAnalyzer,
    signal_aggregator: SignalAggregator,
    current_time_ms: u64,
    equity: i64,
    equity_curve: Vec<(u64, i64)>,
    trades: Vec<BacktestTrade>,
}

impl BacktestEngine {
    /// The replay's configuration.
    pub closed spec fn spec_config(self) -> BacktestConfig {
        self.config
    }

    /// Realized equity so far.
    pub closed spec fn spec_equity(self) -> int {
        self.equity as int
    }

    /// The recorded equity curve.
    pub closed spec fn spec_curve(self) -> Seq<(u64, i64)> {
        self.equity_curve@
    }

    /// The recorded round trips.
    pub closed spec fn spec_trades(self) -> Seq<BacktestTrade> {
        self.trades@
    }

    /// The open-position book.
    pub closed spec fn spec_positions(self) -> PositionManager {
        self.position_manager
    }

    /// Every component's invariant, plus: every open position carries the
    /// replay's symbol.
    pub closed spec fn wf(self) -> bool {
        &&& self.config.wf()
        &&& self.orderbook.wf()
        &&& self.position_manager.wf()
        &&& self.risk_manager.wf()
        &&& self.imbalance_detector.wf()
        &&& self.flow_analyzer.wf()
        &&& forall|i: int|
            0 <= i < self.position_manager.spec_open().len() ==> (
            #[trigger] self.position_manager.spec_open()[i]).symbol@ == self.config.symbol@
    }

    /// Builds an engine over an empty book with the standard detector
    /// configuration and risk limits derived from the capital.
    pub fn new(config: BacktestConfig) -> (r: BacktestEngine)
        requires
            config.wf(),
        ensures
            r.wf(),
            r.spec_config() == config,
            r.spec_equity() == config.initial_capital as int,
            r.spec_positions().spec_open().len() == 0,
            r.spec_curve().len() == 0,
            r.spec_trades().len() == 0,
    {
        let orderbook = OrderBook::new(config.symbol.as_str());
        let position_manager = PositionManager::new();

        let risk_limits = RiskLimits {
            max_position_size: sat_mul5(config.position_size),
            max_portfolio_exposure: config.initial_capital,
            max_daily_loss: config.initial_capital / 20,
            max_drawdown_percent: 100_000,
            max_trades_per_hour: 30,
            max_trades_per_day: 200,
            max_acceptable_latency_ms: 500,
        };
        proof {
            vstd::arithmetic::div_mod::lemma_div_pos_is_pos(config.initial_capital as int, 20);
        }
        let risk_manager = RiskManager::new(risk_limits, config.initial_capital);

        let imbalance_detector = ImbalanceDetector::new(5, 100, 30_000);
        let flow_analyzer = FlowAnalyzer::new(20, 5000, 6_000);
        let signal_aggregator = SignalAggregator::new(30_000, 15_000, 2);

        let equity = config.initial_capital;
        proof {
            assert(orderbook.wf());
        }
        BacktestEngine {
            config,
            orderbook,
            position_manager,
            risk_manager,
            imbalance_detector,
            flow_analyzer,
            signal_aggregator,
            current_time_ms: 0,
            equity,
            equity_curve: Vec::new(),
            trades: Vec::new(),
        }
    }

    /// Replays one market event. A depth update applies its levels to the
    /// book, then looks for signals, checks exits and records equity; a
    /// trade feeds the flow analyzer. Fails exactly on an out-of-range
    /// price or quantity, leaving the components consistent.
    pub fn process_event(&mut self, event: BacktestEvent) -> (r: Result<(), BacktestError>)
        requires
            old(self).wf(),
        ensures
            final(self).wf(),
            final(self).spec_config() == old(self).spec_config(),
    {
        match event {
            BacktestEvent::OrderBookUpdate { timestamp_ms, bids, asks } => {
                self.current_time_ms = timestamp_ms;
                let nb = bids.len();
                let mut i: usize = 0;
                while i < nb
                    invariant
                        0 <= i <= nb,
                        nb == bids@.len(),
                        self.wf(),
                        self.spec_config() == old(self).spec_config(),
                    decreases nb - i,
                {
                    let (p, q) = bids[i];
                    match self.orderbook.update_level(Side::Buy, p, q) {
                        Ok(()) => {},
                        Err(e) => {
                            return Err(BacktestError::InvalidLevel(e));
                        },
                    }
                    i = i + 1;
                }
                let na = asks.len();
                let mut j: usize = 0;
                while j < na
                    invariant
                        0 <= j <= na,
                        na == asks@.len(),
                        self.wf(),
                        self.spec_config() == old(self).spec_config(),
                    decreases na - j,
                {
                    let (p, q) = asks[j];
                    match self.orderbook.update_level(Side::Sell, p, q) {
                        Ok(()) => {},
                        Err(e) => {
                            return Err(BacktestError::InvalidLevel(e));
                        },
                    }
                    j = j + 1;
                }

                let r = self.check_signals();
                match r {
                    Ok(()) => {},
                    Err(e) => {
                        return Err(e);
                    },
                }
                let r2 = self.check_exits();
                match r2 {
                    Ok(()) => {},
                    Err(e) => {
                        return Err(e);
                    },
                }
                self.record_equity();
                Ok(())
            },
            BacktestEvent::Trade { timestamp_ms, trade } => {
                self.current_time_ms = timestamp_ms;
                if trade.price < 0 || trade.price > MAX_PRICE {
                    return Err(BacktestError::InvalidLevel(BookError::InvalidPrice));
                }
                if trade.quantity < 0 || trade.quantity > MAX_QTY {
                    return Err(BacktestError::InvalidLevel(BookError::InvalidQuantity));
                }
                // signals from the flow analyzer alone are never traded on
                // directly; they are picked up with the next book sample
                let _ = self.flow_analyzer.process_trade_at(trade, timestamp_ms);
                Ok(())
            },
        }
    }

    /// Samples the imbalance detector, aggregates, and acts on a tradeable
    /// composite.
    fn check_signals(&mut self) -> (r: Result<(), BacktestError>)
        requires
            old(self).wf(),
        ensures
            final(self).wf(),
            final(self).spec_config() == old(self).spec_config(),
    {
        let mut signals: Vec<crate::types::Signal> = Vec::new();
        let now = self.current_time_ms;
        match self.imbalance_detector.calculate_signal_at(&self.orderbook, now) {
            Some(sig) => {
                signals.push(sig);
            },
            None => {},
        }
        match self.signal_aggregator.aggregate_at(signals, now) {
            Some(composite) => {
                if composite.is_tradeable(2) {
                    return self.execute_signal(composite);
                }
                Ok(())
            },
            None => Ok(()),
        }
    }

    /// Opens a position for a composite signal if no position is open, the
    /// risk manager admits it, and the simulated fill is representable.
    fn execute_signal(&mut self, signal: CompositeSignal) -> (r: Result<(), BacktestError>)
        requires
            old(self).wf(),
        ensures
            final(self).wf(),
            final(self).spec_config() == old(self).spec_config(),
    {
        if self.position_manager.position_count() > 0 {
            return Ok(());
        }
        let position_size = self.config.position_size;
        let current_exposure = self.position_manager.total_exposure();
        let admitted = self.risk_manager.can_open_position_at(
            position_size,
            current_exposure,
            self.current_time_ms,
        );
        match admitted {
            Ok(()) => {},
            Err(_) => {
                return Ok(());
            },
        }

        let mid = match self.orderbook.get_mid_price() {
            Some(m) => m,
            None => {
                return Err(BacktestError::NoMidPrice);
            },
        };

        let fill = match simulate_fill(
            signal.direction,
            mid,
            position_size,
            self.config.slippage_bps,
            self.config.commission_bps,
        ) {
            Some(f) => f,
            None => {
                return Ok(());
            },
        };
        if fill.price > MAX_PRICE || fill.quantity > MAX_QTY {
            // the fill is not representable at this resolution; skip it
            return Ok(());
        }

        let symbol = <String as Clone>::clone(&self.config.symbol);
        let position = Position::new_at(
            symbol,
            signal.direction,
            fill.price,
            fill.quantity,
            fill.commission,
            self.current_time_ms,
        );
        let _ = self.position_manager.open_position(position);
        proof {
            assert forall|i: int|
                0 <= i < self.position_manager.spec_open().len() implies (
            #[trigger] self.position_manager.spec_open()[i]).symbol@ == self.config.symbol@ by {
                if i < self.position_manager.spec_open().len() - 1 {
                    assert(self.position_manager.spec_open()[i] == old(
                        self,
                    ).position_manager.spec_open()[i]);
                }
            }
        }
        Ok(())
    }

    /// Closes open positions whose exit condition holds at the current mid
    /// price.
    fn check_exits(&mut self) -> (r: Result<(), BacktestError>)
        requires
            old(self).wf(),
        ensures
            final(self).wf(),
            final(self).spec_config() == old(self).spec_config(),
    {
        let mid = match self.orderbook.get_mid_price() {
            Some(m) => m,
            None => {
                return Ok(());
            },
        };
        while self.position_manager.position_count() > 0
            invariant
                self.wf(),
                self.spec_config() == old(self).spec_config(),
                valid_price(mid),
            decreases self.position_manager.spec_open().len(),
        {
            let should = {
                let open = self.position_manager.open_positions();
                let p = vstd::slice::slice_index_get(open, 0);
                crate::execution::should_exit(
                    p,
                    mid,
                    self.config.take_profit_bps,
                    self.config.stop_loss_bps,
                    self.config.max_hold_time_ms,
                    self.current_time_ms,
                )
            };
            if !should {
                break ;
            }
            let r = self.close_first_position(mid);
            match r {
                Ok(()) => {},
                Err(e) => {
                    return Err(e);
                },
            }
        }
        Ok(())
    }

    /// Closes the oldest open position at the given price through a
    /// simulated fill, recording the trade.
    fn close_first_position(&mut self, current_price: i64) -> (r: Result<(), BacktestError>)
        requires
            old(self).wf(),
            valid_price(current_price),
            old(self).spec_positions().spec_open().len() > 0,
        ensures
            final(self).wf(),
            final(self).spec_config() == old(self).spec_config(),
            final(self).spec_positions().spec_open().len() < old(
                self,
            ).spec_positions().spec_open().len(),
    {
        let (entry_time_ms, side, entry_price, quantity, fees_paid, notional): (
            u64,
            Side,
            i64,
            i64,
            i64,
            i64,
        ) = {
            let open = self.position_manager.open_positions();
            let p = vstd::slice::slice_index_get(open, 0);
            (p.entry_time_ms, p.side, p.entry_price, p.quantity, p.fees_paid, p.notional_value())
        };

        let fill_opt = simulate_fill(
            side.opposite(),
            current_price,
            notional,
            self.config.slippage_bps,
            self.config.commission_bps,
        );
        let (exit_price, exit_fees): (i64, i64) = match fill_opt {
            Some(f) => {
                if f.price > MAX_PRICE {
                    // an unrepresentable exit price: close at the cap
                    (MAX_PRICE, f.commission)
                } else {
                    (f.price, f.commission)
                }
            },
            None => (current_price, 0),
        };

        let realized = match self.position_manager.close_position(
            self.config.symbol.as_str(),
            exit_price,
            exit_fees,
        ) {
            Ok(v) => v,
            Err(_) => {
                proof {
                    assert(old(self).spec_positions().spec_open()[0].symbol@
                        == self.config.symbol@);
                }
                return Err(BacktestError::PositionNotFound);
            },
        };
        proof {
            assert forall|i: int|
                0 <= i < self.position_manager.spec_open().len() implies (
            #[trigger] self.position_manager.spec_open()[i]).symbol@ == self.config.symbol@ by {
                let idx = crate::position::find_sym(
                    old(self).spec_positions().spec_open(),
                    self.config.symbol@,
                    0,
                );
                assert(self.position_manager.spec_open() == old(
                    self,
                ).spec_positions().spec_open().remove(idx));
            }
        }

        self.risk_manager.record_trade_at(realized, self.current_time_ms);
        self.equity = sat_add_i64(self.equity, realized);
        self.trades.push(
            BacktestTrade {
                entry_time_ms,
                exit_time_ms: self.current_time_ms,
                side,
                entry_price,
                exit_price,
                quantity,
                pnl: realized,
                fees: sat_add_i64(fees_paid, exit_fees),
            },
        );
        Ok(())
    }

    /// Appends the current total equity (realized plus unrealized at the
    /// mid price) to the equity curve.
    fn record_equity(&mut self)
        requires
            old(self).wf(),
        ensures
            final(self).wf(),
            final(self).spec_config() == old(self).spec_config(),
            final(self).spec_curve().len() == old(self).spec_curve().len() + 1,
    {
        let mid = match self.orderbook.get_mid_price() {
            Some(m) => m,
            None => 0,
        };
        let mut prices: Vec<(String, i64)> = Vec::new();
        prices.push((<String as Clone>::clone(&self.config.symbol), mid));
        let unrealized = self.position_manager.total_unrealized_pnl(prices.as_slice());
        let total = sat_add_i64(self.equity, unrealized);
        self.equity_curve.push((self.current_time_ms, total));
    }

    /// The results so far.
    pub fn get_results(&self) -> (r: BacktestResults)
        requires
            self.wf(),
        ensures
            r.trades@ == self.spec_trades(),
            r.equity_curve@ == self.spec_curve(),
            r.final_equity as int == self.spec_equity(),
            r.total_trades == self.spec_trades().len(),
            r.winning_trades as int == bt_count_wins(self.spec_trades()),
            r.losing_trades as int == bt_count_losses(self.spec_trades()),
            r.sharpe_ratio as int == sharpe_of(self.spec_trades()),
    {
        let config = BacktestConfig {
            symbol: <String as Clone>::clone(&self.config.symbol),
            initial_capital: self.config.initial_capital,
            position_size: self.config.position_size,
            take_profit_bps: self.config.take_profit_bps,
            stop_loss_bps: self.config.stop_loss_bps,
            max_hold_time_ms: self.config.max_hold_time_ms,
            slippage_bps: self.config.slippage_bps,
            commission_bps: self.config.commission_bps,
            latency_ms: self.config.latency_ms,
        };
        let trades = copy_trades(&self.trades);
        let curve = copy_curve(&self.equity_curve);
        BacktestResults::new(config, trades, curve, self.equity)
    }

    /// Realized equity so far.
    pub fn equity(&self) -> (r: i64)
        ensures
            r as int == self.spec_equity(),
    {
        self.equity
    }

    /// The open-position book.
    pub fn position_manager(&self) -> (r: &PositionManager)
        ensures
            *r == self.spec_positions(),
    {
        &self.position_manager
    }

    /// The moment of the last replayed event.
    pub fn current_time_ms(&self) -> u64 {
        self.current_time_ms
    }
}

/// Five times the size, saturated.
fn sat_mul5(x: i64) -> (r: i64)
    ensures
        r as int == clamp_i64(5 * x),
        x >= 0 ==> r >= 0,
{
    clamp_to_i64(5i128 * (x as i128))
}

/// Copies a trade record list.
fn copy_trades(v: &Vec<BacktestTrade>) -> (r: Vec<BacktestTrade>)
    ensures
        r@ == v@,
{
    let mut out: Vec<BacktestTrade> = Vec::new();
    let mut i: usize = 0;
    while i < v.len()
        invariant
            0 <= i <= v@.len(),
            out@ == v@.take(i as int),
        decreases v@.len() - i,
    {
        out.push(v[i]);
        proof {
            assert(out@ =~= v@.take(i + 1));
        }
        i = i + 1;
    }
    proof {
        assert(v@.take(v@.len() as int) =~= v@);
    }
    out
}

/// Copies an equity curve.
fn copy_curve(v: &Vec<(u64, i64)>) -> (r: Vec<(u64, i64)>)
    ensures
        r@ == v@,
{
    let mut out: Vec<(u64, i64)> = Vec::new();
    let mut i: usize = 0;
    while i < v.len()
        invariant
            0 <= i <= v@.len(),
            out@ == v@.take(i as int),
        decreases v@.len() - i,
    {
        out.push(v[i]);
        proof {
            assert(out@ =~= v@.take(i + 1));
        }
        i = i + 1;
    }
    proof {
        assert(v@.take(v@.len() as int) =~= v@);
    }
    out
}

} // verus!
