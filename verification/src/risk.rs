//! Risk manager: a multi-limit circuit breaker gating trade admission.
//!
//! The manager is either active or halted. Any breach of the daily-loss or
//! drawdown limit, or sustained high latency, transitions it to halted;
//! the halt is sticky — only an explicit [`RiskManager::resume_trading`]
//! clears it. Money values are fixed-point `i64`s scaled by
//! [`crate::num::SCALE`]; additions saturate at the representable bounds.

use vstd::prelude::*;
use crate::num::{scale, clamp_i64, clamp_to_i64, sat_add_i64};

verus! {

/// How severe a rejected admission is.
#[derive(Clone, Copy, Debug, PartialEq, Eq, Structural)]
pub enum ViolationSeverity {
    /// Advisory only; callers may still proceed.
    Warning,
    /// The trade must not be submitted.
    Block,
    /// The trade must not be submitted and trading halts.
    Emergency,
}

/// A rejected admission: why, and how severe.
#[derive(Clone, Debug)]
pub struct RiskViolation {
    pub reason: String,
    pub severity: ViolationSeverity,
}

/// Static risk limits.
#[derive(Clone, Copy, Debug, PartialEq, Eq, Structural)]
pub struct RiskLimits {
    pub max_position_size: i64,
    pub max_portfolio_exposure: i64,
    pub max_daily_loss: i64,
    pub max_drawdown_percent: i64,
    pub max_trades_per_hour: usize,
    pub max_trades_per_day: usize,
    pub max_acceptable_latency_ms: u64,
}

impl RiskLimits {
    /// Limits are magnitudes: none may be negative.
    pub open spec fn wf(self) -> bool {
        self.max_position_size >= 0 && self.max_portfolio_exposure >= 0 && self.max_daily_loss >= 0
            && self.max_drawdown_percent >= 0
    }
}

impl Default for RiskLimits {
    /// Conservative defaults: position 5000, exposure 10000, daily loss
    /// 500, drawdown 10%, 30 trades per hour, 200 per day, 500 ms latency.
    fn default() -> (r: RiskLimits)
        ensures
            r.wf(),
            r.max_position_size == 50_000_000,
            r.max_portfolio_exposure == 100_000_000,
            r.max_daily_loss == 5_000_000,
            r.max_drawdown_percent == 100_000,
            r.max_trades_per_hour == 30,
            r.max_trades_per_day == 200,
            r.max_acceptable_latency_ms == 500,
    {
        RiskLimits {
            max_position_size: 50_000_000,
            max_portfolio_exposure: 100_000_000,
            max_daily_loss: 5_000_000,
            max_drawdown_percent: 100_000,
            max_trades_per_hour: 30,
            max_trades_per_day: 200,
            max_acceptable_latency_ms: 500,
        }
    }
}

/// One hour, in milliseconds.
pub const HOUR_MS: u64 = 3_600_000;

/// One day, in milliseconds.
pub const DAY_MS: u64 = 86_400_000;

/// The ring buffer of recent latencies holds at most this many readings.
pub const LATENCY_CAP: usize = 100;

/// The moment one hour before `now` (zero when the clock is younger).
pub open spec fn hour_cutoff(now: u64) -> int {
    if now >= HOUR_MS {
        now - HOUR_MS
    } else {
        0
    }
}

/// Milliseconds elapsed since `start`, zero if the clock ran backwards.
pub open spec fn elapsed_ms(now: u64, start: u64) -> int {
    if now >= start {
        now - start
    } else {
        0
    }
}

/// Drops leading instants older than the cutoff.
pub open spec fn evict_older(s: Seq<u64>, cutoff: int) -> Seq<u64>
    decreases s.len(),
{
    if s.len() > 0 && (s[0] as int) < cutoff {
        evict_older(s.drop_first(), cutoff)
    } else {
        s
    }
}

/// Appends to a ring buffer of the given capacity, evicting the oldest
/// entry on overflow.
pub open spec fn push_cap(s: Seq<u64>, x: u64, cap: int) -> Seq<u64> {
    if s.len() + 1 > cap {
        s.push(x).drop_first()
    } else {
        s.push(x)
    }
}

/// Sum of a sequence of readings.
pub open spec fn sum_u64(s: Seq<u64>) -> int
    decreases s.len(),
{
    if s.len() == 0 {
        0
    } else {
        sum_u64(s.drop_last()) + s.last()
    }
}

/// Mean of a non-empty sequence of readings (floor).
pub open spec fn lat_avg(s: Seq<u64>) -> int {
    sum_u64(s) / s.len() as int
}

/// How many readings exceed the limit.
pub open spec fn count_high(s: Seq<u64>, limit: u64) -> int
    decreases s.len(),
{
    if s.len() == 0 {
        0
    } else {
        count_high(s.drop_last(), limit) + (if s.last() > limit {
            1int
        } else {
            0int
        })
    }
}

/// Drawdown from the equity peak, in percent at fixed-point scale; zero
/// when there is no peak.
pub open spec fn drawdown_pct(peak: int, cur: int) -> int {
    if peak <= 0 {
        0
    } else {
        (peak - cur) * 100 * scale() / peak
    }
}

/// Point-in-time risk metrics for monitoring.
#[derive(Clone, Debug)]
pub struct RiskMetrics {
    pub daily_pnl: i64,
    pub daily_trades: usize,
    pub hourly_trades: usize,
    pub drawdown_percent: i64,
    pub current_equity: i64,
    pub peak_equity: i64,
    pub average_latency_ms: Option<u64>,
    pub trading_halted: bool,
}

/// The circuit breaker itself.
#[derive(Debug)]
pub struct RiskManager {
    limits: RiskLimits,
    daily_pnl: i64,
    daily_trades: usize,
    day_start_ms: u64,
    hourly_trades: Vec<u64>,
    peak_equity: i64,
    current_equity: i64,
    recent_latencies: Vec<u64>,
    trading_halted: bool,
    halt_reason: Option<String>,
}

impl RiskManager {
    /// The configured limits.
    pub closed spec fn spec_limits(self) -> RiskLimits {
        self.limits
    }

    /// Profit and loss accumulated today.
    pub closed spec fn spec_daily_pnl(self) -> int {
        self.daily_pnl as int
    }

    /// Trades recorded today.
    pub closed spec fn spec_daily_trades(self) -> int {
        self.daily_trades as int
    }

    /// When the current day started.
    pub closed spec fn spec_day_start(self) -> u64 {
        self.day_start_ms
    }

    /// Instants of recent trades, oldest first.
    pub closed spec fn spec_hourly(self) -> Seq<u64> {
        self.hourly_trades@
    }

    /// Highest equity seen.
    pub closed spec fn spec_peak(self) -> int {
        self.peak_equity as int
    }

    /// Current equity.
    pub closed spec fn spec_cur(self) -> int {
        self.current_equity as int
    }

    /// Recent latency readings, oldest first.
    pub closed spec fn spec_latencies(self) -> Seq<u64> {
        self.recent_latencies@
    }

    /// Whether trading is halted.
    pub closed spec fn spec_halted(self) -> bool {
        self.trading_halted
    }

    /// The halt reason, if halted.
    pub closed spec fn spec_halt_reason(self) -> Option<Seq<char>> {
        match self.halt_reason {
            Some(s) => Some(s@),
            None => None,
        }
    }

    /// Valid limits, a non-negative peak at or above current equity, and a
    /// bounded latency buffer.
    pub open spec fn wf(self) -> bool {
        &&& self.spec_limits().wf()
        &&& 0 <= self.spec_peak()
        &&& self.spec_cur() <= self.spec_peak()
        &&& self.spec_latencies().len() <= LATENCY_CAP as int
    }

    /// All fields except the hourly window, the halt flag and the halt
    /// reason are the same in both states.
    pub open spec fn same_but_hourly_halt(self, o: RiskManager) -> bool {
        &&& self.spec_limits() == o.spec_limits()
        &&& self.spec_daily_pnl() == o.spec_daily_pnl()
        &&& self.spec_daily_trades() == o.spec_daily_trades()
        &&& self.spec_day_start() == o.spec_day_start()
        &&& self.spec_peak() == o.spec_peak()
        &&& self.spec_cur() == o.spec_cur()
        &&& self.spec_latencies() == o.spec_latencies()
    }

    /// A fresh, active manager at the given starting equity.
    pub fn new(limits: RiskLimits, initial_equity: i64) -> (r: RiskManager)
        requires
            limits.wf(),
            initial_equity >= 0,
        ensures
            r.wf(),
            r.spec_limits() == limits,
            r.spec_daily_pnl() == 0,
            r.spec_daily_trades() == 0,
            r.spec_hourly().len() == 0,
            r.spec_peak() == initial_equity as int,
            r.spec_cur() == initial_equity as int,
            r.spec_latencies().len() == 0,
            !r.spec_halted(),
            r.spec_halt_reason() is None,
    {
        let day_start_ms = crate::clock::now_millis();
        RiskManager {
            limits,
            daily_pnl: 0,
            daily_trades: 0,
            day_start_ms,
            hourly_trades: Vec::new(),
            peak_equity: initial_equity,
            current_equity: initial_equity,
            recent_latencies: Vec::new(),
            trading_halted: false,
            halt_reason: None,
        }
    }

    /// Admission check for a new position, with the current time supplied.
    /// The checks run in order and stop at the first failure:
    /// halted (Emergency), position size (Block), portfolio exposure
    /// (Block), daily loss (Emergency, halts), drawdown (Emergency, halts),
    /// hourly trade count after pruning the trailing hour (Block), daily
    /// trade count (Block), average latency (Warning, advisory). Success is
    /// owed exactly when none of the limits is breached.
    pub fn can_open_position_at(&mut self, position_size: i64, current_exposure: i64, now_ms: u64) -> (r:
        Result<(), RiskViolation>)
        requires
            old(self).wf(),
        ensures
            final(self).wf(),
            final(self).same_but_hourly_halt(*old(self)),
            ({
                let lim = old(self).spec_limits();
                let c1 = old(self).spec_halted();
                let c2 = position_size > lim.max_position_size;
                let c3 = current_exposure + position_size > lim.max_portfolio_exposure;
                let c4 = old(self).spec_daily_pnl() < -lim.max_daily_loss;
                let c5 = drawdown_pct(old(self).spec_peak(), old(self).spec_cur())
                    > lim.max_drawdown_percent;
                let cleaned = evict_older(old(self).spec_hourly(), hour_cutoff(now_ms));
                let c6 = cleaned.len() >= lim.max_trades_per_hour;
                let c7 = old(self).spec_daily_trades() >= lim.max_trades_per_day;
                let c8 = old(self).spec_latencies().len() > 0 && lat_avg(old(self).spec_latencies())
                    > lim.max_acceptable_latency_ms;
                &&& (c1 ==> (r matches Err(v) && v.severity == ViolationSeverity::Emergency
                    && v.reason@ == "Trading halted: "@ + (match old(self).spec_halt_reason() {
                    Some(h) => h,
                    None => "Unknown"@,
                }) && final(self).spec_hourly() == old(self).spec_hourly() && final(self).spec_halted() && final(self).spec_halt_reason() == old(self).spec_halt_reason()))
                &&& (!c1 && c2 ==> (r matches Err(v) && v.severity == ViolationSeverity::Block
                    && v.reason@ == "Position size exceeds limit"@ && final(self).spec_hourly()
                    == old(self).spec_hourly() && !final(self).spec_halted()))
                &&& (!c1 && !c2 && c3 ==> (r matches Err(v) && v.severity
                    == ViolationSeverity::Block && v.reason@ == "Portfolio exposure exceeds limit"@
                    && final(self).spec_hourly() == old(self).spec_hourly() && !final(self).spec_halted()))
                &&& (!c1 && !c2 && !c3 && c4 ==> (r matches Err(v) && v.severity
                    == ViolationSeverity::Emergency && v.reason@ == "Daily loss limit exceeded"@
                    && final(self).spec_hourly() == old(self).spec_hourly() && final(self).spec_halted() && final(self).spec_halt_reason() == Some(
                    "Daily loss limit exceeded"@,
                )))
                &&& (!c1 && !c2 && !c3 && !c4 && c5 ==> (r matches Err(v) && v.severity
                    == ViolationSeverity::Emergency && v.reason@ == "Drawdown limit exceeded"@
                    && final(self).spec_hourly() == old(self).spec_hourly() && final(self).spec_halted() && final(self).spec_halt_reason() == Some(
                    "Drawdown limit exceeded"@,
                )))
                &&& (!c1 && !c2 && !c3 && !c4 && !c5 ==> (final(self).spec_hourly() == cleaned
                    && !final(self).spec_halted() && final(self).spec_halt_reason() == old(self).spec_halt_reason()))
                &&& (!c1 && !c2 && !c3 && !c4 && !c5 && c6 ==> (r matches Err(v) && v.severity
                    == ViolationSeverity::Block && v.reason@ == "Hourly trade limit reached"@))
                &&& (!c1 && !c2 && !c3 && !c4 && !c5 && !c6 && c7 ==> (r matches Err(v)
                    && v.severity == ViolationSeverity::Block && v.reason@
                    == "Daily trade limit reached"@))
                &&& (!c1 && !c2 && !c3 && !c4 && !c5 && !c6 && !c7 && c8 ==> (r matches Err(v)
                    && v.severity == ViolationSeverity::Warning && v.reason@
                    == "Average latency exceeds limit"@))
                &&& (!c1 && !c2 && !c3 && !c4 && !c5 && !c6 && !c7 && !c8 ==> r is Ok)
                &&& (r is Ok ==> !c1 && !c2 && !c3 && !c4 && !c5 && !c6 && !c7 && !c8)
            }),
    {
        if self.trading_halted {
            let base = <String as vstd::string::StringExecFns>::from_str("Trading halted: ");
            let reason = match &self.halt_reason {
                Some(h) => <String as vstd::string::StringExecFns>::concat(base, h.as_str()),
                None => <String as vstd::string::StringExecFns>::concat(base, "Unknown"),
            };
            return Err(RiskViolation { reason, severity: ViolationSeverity::Emergency });
        }

        if position_size > self.limits.max_position_size {
            return Err(
                RiskViolation {
                    reason: <String as vstd::string::StringExecFns>::from_str(
                        "Position size exceeds limit",
                    ),
                    severity: ViolationSeverity::Block,
                },
            );
        }

        if (current_exposure as i128) + (position_size as i128) > (self.limits.max_portfolio_exposure
            as i128) {
            return Err(
                RiskViolation {
                    reason: <String as vstd::string::StringExecFns>::from_str(
                        "Portfolio exposure exceeds limit",
                    ),
                    severity: ViolationSeverity::Block,
                },
            );
        }

        if self.daily_pnl < -self.limits.max_daily_loss {
            self.halt_trading("Daily loss limit exceeded");
            return Err(
                RiskViolation {
                    reason: <String as vstd::string::StringExecFns>::from_str(
                        "Daily loss limit exceeded",
                    ),
                    severity: ViolationSeverity::Emergency,
                },
            );
        }

        let dd: i128 = self.drawdown_wide();
        if dd > self.limits.max_drawdown_percent as i128 {
            self.halt_trading("Drawdown limit exceeded");
            return Err(
                RiskViolation {
                    reason: <String as vstd::string::StringExecFns>::from_str(
                        "Drawdown limit exceeded",
                    ),
                    severity: ViolationSeverity::Emergency,
                },
            );
        }

        self.cleanup_old_trades(now_ms);
        if self.hourly_trades.len() >= self.limits.max_trades_per_hour {
            return Err(
                RiskViolation {
                    reason: <String as vstd::string::StringExecFns>::from_str(
                        "Hourly trade limit reached",
                    ),
                    severity: ViolationSeverity::Block,
                },
            );
        }

        if self.daily_trades >= self.limits.max_trades_per_day {
            return Err(
                RiskViolation {
                    reason: <String as vstd::string::StringExecFns>::from_str(
                        "Daily trade limit reached",
                    ),
                    severity: ViolationSeverity::Block,
                },
            );
        }

        match avg_latency_of(&self.recent_latencies) {
            Some(avg) => {
                if avg > self.limits.max_acceptable_latency_ms {
                    return Err(
                        RiskViolation {
                            reason: <String as vstd::string::StringExecFns>::from_str(
                                "Average latency exceeds limit",
                            ),
                            severity: ViolationSeverity::Warning,
                        },
                    );
                }
            },
            None => {},
        }

        Ok(())
    }

    /// Admission check against the wall clock: exactly
    /// [`Self::can_open_position_at`], with the trailing hour measured from
    /// whatever the clock returned.
    pub fn can_open_position(&mut self, position_size: i64, current_exposure: i64) -> (r: Result<
        (),
        RiskViolation,
    >)
        requires
            old(self).wf(),
        ensures
            final(self).wf(),
            final(self).same_but_hourly_halt(*old(self)),
            ({
                let lim = old(self).spec_limits();
                let c1 = old(self).spec_halted();
                let c2 = position_size > lim.max_position_size;
                let c3 = current_exposure + position_size > lim.max_portfolio_exposure;
                let c4 = old(self).spec_daily_pnl() < -lim.max_daily_loss;
                let c5 = drawdown_pct(old(self).spec_peak(), old(self).spec_cur())
                    > lim.max_drawdown_percent;
                &&& (c1 ==> (r matches Err(v) && v.severity == ViolationSeverity::Emergency))
                &&& (!c1 && c2 ==> (r matches Err(v) && v.severity == ViolationSeverity::Block))
                &&& (!c1 && !c2 && c3 ==> (r matches Err(v) && v.severity
                    == ViolationSeverity::Block))
                &&& (!c1 && !c2 && !c3 && c4 ==> (r matches Err(v) && v.severity
                    == ViolationSeverity::Emergency && final(self).spec_halted()))
                &&& (!c1 && !c2 && !c3 && !c4 && c5 ==> (r matches Err(v) && v.severity
                    == ViolationSeverity::Emergency && final(self).spec_halted()))
                &&& (!c1 && !c2 && !c3 && !c4 && !c5 ==> final(self).spec_halted() == old(self).spec_halted())
                &&& (r is Ok ==> !c1 && !c2 && !c3 && !c4 && !c5 && old(self).spec_daily_trades()
                    < lim.max_trades_per_day)
            }),
    {
        let now = crate::clock::now_millis();
        self.can_open_position_at(position_size, current_exposure, now)
    }

    /// Records a completed trade with the current time supplied: the
    /// instant joins the hourly window, the day's counters and both
    /// equities take the profit or loss (saturating), the peak rises with
    /// the equity, and a full day rolls the daily counters over.
    pub fn record_trade_at(&mut self, pnl: i64, now_ms: u64)
        requires
            old(self).wf(),
        ensures
            final(self).wf(),
            final(self).spec_limits() == old(self).spec_limits(),
            final(self).spec_hourly() == old(self).spec_hourly().push(now_ms),
            final(self).spec_cur() == clamp_i64(old(self).spec_cur() + pnl),
            final(self).spec_peak() == (if clamp_i64(old(self).spec_cur() + pnl) > old(self).spec_peak() {
                clamp_i64(old(self).spec_cur() + pnl)
            } else {
                old(self).spec_peak()
            }),
            ({
                let rolled = elapsed_ms(now_ms, old(self).spec_day_start()) >= DAY_MS as int;
                &&& (rolled ==> final(self).spec_daily_pnl() == 0 && final(self).spec_daily_trades()
                    == 0 && final(self).spec_day_start() == now_ms)
                &&& (!rolled ==> final(self).spec_daily_pnl() == clamp_i64(
                    old(self).spec_daily_pnl() + pnl,
                ) && final(self).spec_daily_trades() == (if old(self).spec_daily_trades()
                    < usize::MAX as int {
                    old(self).spec_daily_trades() + 1
                } else {
                    old(self).spec_daily_trades()
                }) && final(self).spec_day_start() == old(self).spec_day_start())
            }),
            final(self).spec_latencies() == old(self).spec_latencies(),
            final(self).spec_halted() == old(self).spec_halted(),
            final(self).spec_halt_reason() == old(self).spec_halt_reason(),
    {
        self.hourly_trades.push(now_ms);
        if self.daily_trades < usize::MAX {
            self.daily_trades = self.daily_trades + 1;
        }
        self.daily_pnl = sat_add_i64(self.daily_pnl, pnl);
        self.current_equity = sat_add_i64(self.current_equity, pnl);
        if self.current_equity > self.peak_equity {
            self.peak_equity = self.current_equity;
        }
        let elapsed: u64 = if now_ms >= self.day_start_ms {
            now_ms - self.day_start_ms
        } else {
            0
        };
        if elapsed >= DAY_MS {
            self.daily_pnl = 0;
            self.daily_trades = 0;
            self.day_start_ms = now_ms;
        }
    }

    /// Records a completed trade against the wall clock; exactly
    /// [`Self::record_trade_at`] at whatever instant the clock returned.
    /// Whatever that instant was, the halt state, the limits, the latency
    /// buffer and the equities change as there.
    pub fn record_trade(&mut self, pnl: i64)
        requires
            old(self).wf(),
        ensures
            final(self).wf(),
            final(self).spec_limits() == old(self).spec_limits(),
            final(self).spec_cur() == clamp_i64(old(self).spec_cur() + pnl),
            final(self).spec_peak() == (if clamp_i64(old(self).spec_cur() + pnl) > old(self).spec_peak() {
                clamp_i64(old(self).spec_cur() + pnl)
            } else {
                old(self).spec_peak()
            }),
            final(self).spec_latencies() == old(self).spec_latencies(),
            final(self).spec_halted() == old(self).spec_halted(),
            final(self).spec_halt_reason() == old(self).spec_halt_reason(),
            final(self).spec_daily_pnl() == clamp_i64(old(self).spec_daily_pnl() + pnl) || final(self).spec_daily_pnl() == 0,
            exists|now: u64| #[trigger]
                final(self).spec_hourly() == old(self).spec_hourly().push(now),
    {
        let now = crate::clock::now_millis();
        self.record_trade_at(pnl, now);
        proof {
            assert(final(self).spec_hourly() == old(self).spec_hourly().push(now));
        }
    }

    /// Records an execution latency reading into the capacity-100 ring
    /// buffer; if at least eight of the ten most recent readings exceed the
    /// acceptable limit, trading halts.
    pub fn record_latency(&mut self, latency_ms: u64)
        requires
            old(self).wf(),
        ensures
            final(self).wf(),
            final(self).spec_limits() == old(self).spec_limits(),
            final(self).spec_latencies() == push_cap(
                old(self).spec_latencies(),
                latency_ms,
                LATENCY_CAP as int,
            ),
            ({
                let lat = push_cap(old(self).spec_latencies(), latency_ms, LATENCY_CAP as int);
                let trip = lat.len() >= 10 && count_high(
                    lat.skip(lat.len() - 10),
                    old(self).spec_limits().max_acceptable_latency_ms,
                ) >= 8;
                &&& final(self).spec_halted() == (old(self).spec_halted() || trip)
                &&& (trip ==> final(self).spec_halt_reason() == Some(
                    "Consistent high latency detected"@,
                ))
                &&& (!trip ==> final(self).spec_halt_reason() == old(self).spec_halt_reason())
            }),
            final(self).spec_daily_pnl() == old(self).spec_daily_pnl(),
            final(self).spec_daily_trades() == old(self).spec_daily_trades(),
            final(self).spec_day_start() == old(self).spec_day_start(),
            final(self).spec_hourly() == old(self).spec_hourly(),
            final(self).spec_peak() == old(self).spec_peak(),
            final(self).spec_cur() == old(self).spec_cur(),
    {
        self.recent_latencies.push(latency_ms);
        if self.recent_latencies.len() > LATENCY_CAP {
            self.recent_latencies.remove(0);
            proof {
                assert(old(self).spec_latencies().push(latency_ms).remove(0) =~= old(self).spec_latencies().push(latency_ms).drop_first());
            }
        }
        let n = self.recent_latencies.len();
        if n >= 10 {
            let limit = self.limits.max_acceptable_latency_ms;
            let start = n - 10;
            let mut high: usize = 0;
            let mut i: usize = start;
            let ghost lat = self.recent_latencies@;
            proof {
                assert(lat.subrange(start as int, start as int) =~= Seq::<u64>::empty());
            }
            while i < n
                invariant
                    start <= i <= n,
                    n == lat.len(),
                    start == n - 10,
                    lat == self.recent_latencies@,
                    high == count_high(lat.subrange(start as int, i as int), limit),
                    high <= i - start,
                    limit == self.limits.max_acceptable_latency_ms,
                decreases n - i,
            {
                proof {
                    assert(lat.subrange(start as int, i + 1).drop_last() =~= lat.subrange(
                        start as int,
                        i as int,
                    ));
                    assert(lat.subrange(start as int, i + 1).last() == lat[i as int]);
                }
                if self.recent_latencies[i] > limit {
                    high = high + 1;
                }
                i = i + 1;
            }
            proof {
                assert(lat.subrange(start as int, n as int) =~= lat.skip(lat.len() - 10));
            }
            if high >= 8 {
                self.halt_trading("Consistent high latency detected");
            }
        }
    }

    /// Drawdown from the peak, wide enough never to truncate.
    fn drawdown_wide(&self) -> (r: i128)
        requires
            self.wf(),
        ensures
            r as int == drawdown_pct(self.spec_peak(), self.spec_cur()),
    {
        if self.peak_equity <= 0 {
            0
        } else {
            let num: i128 = ((self.peak_equity as i128) - (self.current_equity as i128))
                * 1_000_000i128;
            proof {
                assert((self.spec_peak() - self.spec_cur()) * 1_000_000 >= 0) by (nonlinear_arith)
                    requires
                        self.spec_peak() >= self.spec_cur(),
                ;
                assert((self.spec_peak() - self.spec_cur()) * 100 * scale() == (self.spec_peak()
                    - self.spec_cur()) * 1_000_000) by (nonlinear_arith);
                vstd::arithmetic::div_mod::lemma_div_pos_is_pos(
                    (self.spec_peak() - self.spec_cur()) * 1_000_000,
                    self.spec_peak(),
                );
            }
            num / (self.peak_equity as i128)
        }
    }

    /// Prunes the hourly window to the trailing hour.
    fn cleanup_old_trades(&mut self, now_ms: u64)
        ensures
            final(self).spec_hourly() == evict_older(old(self).spec_hourly(), hour_cutoff(now_ms)),
            final(self).spec_limits() == old(self).spec_limits(),
            final(self).spec_daily_pnl() == old(self).spec_daily_pnl(),
            final(self).spec_daily_trades() == old(self).spec_daily_trades(),
            final(self).spec_day_start() == old(self).spec_day_start(),
            final(self).spec_peak() == old(self).spec_peak(),
            final(self).spec_cur() == old(self).spec_cur(),
            final(self).spec_latencies() == old(self).spec_latencies(),
            final(self).spec_halted() == old(self).spec_halted(),
            final(self).spec_halt_reason() == old(self).spec_halt_reason(),
    {
        let cutoff: u64 = if now_ms >= HOUR_MS {
            now_ms - HOUR_MS
        } else {
            0
        };
        let ghost s0 = self.hourly_trades@;
        let ghost co = hour_cutoff(now_ms);
        while self.hourly_trades.len() > 0 && self.hourly_trades[0] < cutoff
            invariant
                co == cutoff as int,
                evict_older(s0, co) == evict_older(self.hourly_trades@, co),
                self.limits == old(self).limits,
                self.daily_pnl == old(self).daily_pnl,
                self.daily_trades == old(self).daily_trades,
                self.day_start_ms == old(self).day_start_ms,
                self.peak_equity == old(self).peak_equity,
                self.current_equity == old(self).current_equity,
                self.recent_latencies@ == old(self).recent_latencies@,
                self.trading_halted == old(self).trading_halted,
                self.halt_reason == old(self).halt_reason,
            decreases self.hourly_trades@.len(),
        {
            proof {
                assert(self.hourly_trades@.drop_first() =~= self.hourly_trades@.remove(0));
            }
            self.hourly_trades.remove(0);
        }
        proof {
            assert(evict_older(self.hourly_trades@, co) == self.hourly_trades@);
        }
    }

    /// Halts all trading with the given reason; only
    /// [`Self::resume_trading`] clears it.
    pub fn halt_trading(&mut self, reason: &str)
        ensures
            final(self).spec_halted(),
            final(self).spec_halt_reason() == Some(reason@),
            final(self).spec_limits() == old(self).spec_limits(),
            final(self).spec_daily_pnl() == old(self).spec_daily_pnl(),
            final(self).spec_daily_trades() == old(self).spec_daily_trades(),
            final(self).spec_day_start() == old(self).spec_day_start(),
            final(self).spec_hourly() == old(self).spec_hourly(),
            final(self).spec_peak() == old(self).spec_peak(),
            final(self).spec_cur() == old(self).spec_cur(),
            final(self).spec_latencies() == old(self).spec_latencies(),
            old(self).wf() ==> final(self).wf(),
    {
        self.trading_halted = true;
        self.halt_reason = Some(<String as vstd::string::StringExecFns>::from_str(reason));
    }

    /// Clears a halt: the only path from halted back to active.
    pub fn resume_trading(&mut self)
        ensures
            !final(self).spec_halted(),
            final(self).spec_halt_reason() is None,
            final(self).spec_limits() == old(self).spec_limits(),
            final(self).spec_daily_pnl() == old(self).spec_daily_pnl(),
            final(self).spec_daily_trades() == old(self).spec_daily_trades(),
            final(self).spec_day_start() == old(self).spec_day_start(),
            final(self).spec_hourly() == old(self).spec_hourly(),
            final(self).spec_peak() == old(self).spec_peak(),
            final(self).spec_cur() == old(self).spec_cur(),
            final(self).spec_latencies() == old(self).spec_latencies(),
            old(self).wf() ==> final(self).wf(),
    {
        self.trading_halted = false;
        self.halt_reason = None;
    }

    /// Whether trading is halted.
    pub fn is_halted(&self) -> (r: bool)
        ensures
            r == self.spec_halted(),
    {
        self.trading_halted
    }

    /// The reason for the halt, if halted.
    pub fn halt_reason(&self) -> (r: Option<&str>)
        ensures
            r matches Some(s) ==> self.spec_halt_reason() == Some(s@),
            r is None <==> self.spec_halt_reason() is None,
    {
        match &self.halt_reason {
            Some(s) => Some(s.as_str()),
            None => None,
        }
    }

    /// Current risk metrics for monitoring.
    pub fn get_metrics(&self) -> (r: RiskMetrics)
        requires
            self.wf(),
        ensures
            r.daily_pnl == self.spec_daily_pnl(),
            r.daily_trades == self.spec_daily_trades(),
            r.hourly_trades == self.spec_hourly().len(),
            r.drawdown_percent as int == clamp_i64(
                drawdown_pct(self.spec_peak(), self.spec_cur()),
            ),
            r.current_equity == self.spec_cur(),
            r.peak_equity == self.spec_peak(),
            r.average_latency_ms matches Some(a) ==> self.spec_latencies().len() > 0 && a as int
                == lat_avg(self.spec_latencies()),
            r.average_latency_ms is None <==> self.spec_latencies().len() == 0,
            r.trading_halted == self.spec_halted(),
    {
        let dd = self.drawdown_wide();
        RiskMetrics {
            daily_pnl: self.daily_pnl,
            daily_trades: self.daily_trades,
            hourly_trades: self.hourly_trades.len(),
            drawdown_percent: clamp_to_i64(dd),
            current_equity: self.current_equity,
            peak_equity: self.peak_equity,
            average_latency_ms: avg_latency_of(&self.recent_latencies),
            trading_halted: self.trading_halted,
        }
    }
}

/// Mean latency over the buffer; nothing on an empty buffer.
fn avg_latency_of(v: &Vec<u64>) -> (r: Option<u64>)
    requires
        v@.len() <= LATENCY_CAP as int,
    ensures
        r matches Some(a) ==> v@.len() > 0 && a as int == lat_avg(v@),
        r is None <==> v@.len() == 0,
{
    if v.len() == 0 {
        return None;
    }
    let n = v.len();
    let mut sum: u128 = 0;
    let mut i: usize = 0;
    while i < n
        invariant
            0 <= i <= n,
            n == v@.len(),
            v@.len() <= LATENCY_CAP as int,
            sum == sum_u64(v@.take(i as int)),
            sum <= i * (u64::MAX as int),
        decreases n - i,
    {
        proof {
            assert(v@.take(i + 1).drop_last() =~= v@.take(i as int));
            assert(v@.take(i + 1).last() == v@[i as int]);
            assert(i * (u64::MAX as int) + u64::MAX <= (i + 1) * (u64::MAX as int))
                by (nonlinear_arith);
            assert((i + 1) * (u64::MAX as int) <= 100 * (u64::MAX as int)) by (nonlinear_arith)
                requires
                    0 <= i + 1 <= 100,
            ;
        }
        sum = sum + (v[i] as u128);
        i = i + 1;
    }
    proof {
        assert(v@.take(n as int) =~= v@);
        assert(sum <= n * (u64::MAX as int)) by (nonlinear_arith)
            requires
                sum <= (v@.len() as int) * (u64::MAX as int),
                n == v@.len(),
        ;
        vstd::arithmetic::div_mod::lemma_div_is_ordered(
            sum as int,
            (n as int) * (u64::MAX as int),
            n as int,
        );
        vstd::arithmetic::div_mod::lemma_div_multiples_vanish(u64::MAX as int, n as int);
    }
    let avg: u128 = sum / (n as u128);
    Some(avg as u64)
}

} // verus!
