//! Trade-flow analyzer: a decayed-volume imbalance over the recent trade
//! stream.
//!
//! Trades are kept in a window bounded both by count and by age. Walking the
//! window newest to oldest, each trade's quantity is weighted by a decay of
//! 0.95 per step and accumulated into aggressive-buy or aggressive-sell
//! volume; a signal is emitted when the weighted flow is one-sided enough.

use vstd::prelude::*;
use crate::num::{SCALE, scale};
use crate::types::{Side, Signal, SignalComponent, Trade, MAX_QTY};
use crate::imbalance::abs_int;

verus! {

/// Largest trade-count window the analyzer may be configured with.
pub const FLOW_WINDOW_MAX: usize = 4096;

/// Decay weight of the `k`-th most recent trade, at fixed-point scale:
/// `0.95^k`, evaluated step by step in fixed point.
pub open spec fn weight_at(k: nat) -> int
    decreases k,
{
    if k == 0 {
        scale()
    } else {
        weight_at((k - 1) as nat) * 95 / 100
    }
}

/// The decay weights stay within `[0, SCALE]`.
pub proof fn lemma_weight_at_bounds(k: nat)
    ensures
        0 <= weight_at(k) <= scale(),
    decreases k,
{
    if k > 0 {
        lemma_weight_at_bounds((k - 1) as nat);
        let w = weight_at((k - 1) as nat);
        vstd::arithmetic::div_mod::lemma_div_pos_is_pos(w * 95, 100);
        assert(w * 95 >= 0) by (nonlinear_arith)
            requires
                w >= 0,
        ;
        assert(w * 95 <= w * 100) by (nonlinear_arith)
            requires
                w >= 0,
        ;
        vstd::arithmetic::div_mod::lemma_div_is_ordered(w * 95, w * 100, 100);
        vstd::arithmetic::div_mod::lemma_div_multiples_vanish(w, 100);
    }
}

/// Weighted contribution of one trade to the aggressive-buy volume.
pub open spec fn buy_contrib(t: Trade, w: int) -> int {
    if t.spec_is_aggressive_buy() {
        (t.quantity as int) * w / scale()
    } else {
        0
    }
}

/// Weighted contribution of one trade to the aggressive-sell volume.
pub open spec fn sell_contrib(t: Trade, w: int) -> int {
    if t.spec_is_aggressive_sell() {
        (t.quantity as int) * w / scale()
    } else {
        0
    }
}

/// Weighted aggressive-buy volume of the trades from index `j` on, the
/// newest trade carrying weight one.
pub open spec fn wbuy_from(s: Seq<Trade>, j: int) -> int
    decreases s.len() - j,
{
    if j < 0 || j >= s.len() {
        0
    } else {
        buy_contrib(s[j], weight_at((s.len() - 1 - j) as nat)) + wbuy_from(s, j + 1)
    }
}

/// Weighted aggressive-sell volume of the trades from index `j` on.
pub open spec fn wsell_from(s: Seq<Trade>, j: int) -> int
    decreases s.len() - j,
{
    if j < 0 || j >= s.len() {
        0
    } else {
        sell_contrib(s[j], weight_at((s.len() - 1 - j) as nat)) + wsell_from(s, j + 1)
    }
}

/// The moment before which trades are too old to keep.
pub open spec fn cutoff_of(now: u64, time_window_ms: u64) -> int {
    if now >= time_window_ms {
        now - time_window_ms
    } else {
        0
    }
}

/// Drops leading trades older than the cutoff.
pub open spec fn evict_time(s: Seq<Trade>, cutoff: int) -> Seq<Trade>
    decreases s.len(),
{
    if s.len() > 0 && (s[0].timestamp_ms as int) < cutoff {
        evict_time(s.drop_first(), cutoff)
    } else {
        s
    }
}

/// Drops leading trades beyond the count window.
pub open spec fn evict_count(s: Seq<Trade>, w: int) -> Seq<Trade>
    decreases s.len(),
{
    if s.len() > w && s.len() >= 1 {
        evict_count(s.drop_first(), w)
    } else {
        s
    }
}

/// The window after one trade: append, evict by age, evict by count.
pub open spec fn flow_window_after(s: Seq<Trade>, t: Trade, now: u64, time_window_ms: u64, w: int) -> Seq<
    Trade,
> {
    evict_count(evict_time(s.push(t), cutoff_of(now, time_window_ms)), w)
}

/// Signed flow imbalance `(buy - sell) / total` at fixed-point scale;
/// meaningful when `total` is positive.
pub open spec fn flow_imb(b: int, s: int) -> int {
    if b >= s {
        (b - s) * scale() / (b + s)
    } else {
        -((s - b) * scale() / (b + s))
    }
}

/// Signal strength: the imbalance over the threshold.
pub open spec fn flow_strength(imb: int, threshold: int) -> int {
    if imb >= 0 {
        imb * scale() / threshold
    } else {
        -((-imb) * scale() / threshold)
    }
}

/// Confidence: `0.3 * min(len/window, 1) + 0.7 * min(|imb|, 1)`, capped at
/// one, at fixed-point scale.
pub open spec fn flow_conf(len: int, window: int, imb: int) -> int {
    let cf_raw = len * scale() / window;
    let cf = if cf_raw > scale() {
        scale()
    } else {
        cf_raw
    };
    let mf = if abs_int(imb) > scale() {
        scale()
    } else {
        abs_int(imb)
    };
    let c = cf * 3 / 10 + mf * 7 / 10;
    if c > scale() {
        scale()
    } else {
        c
    }
}

/// Whether a window of trades makes the analyzer emit: enough trades, a
/// positive weighted total, and an imbalance at or past the threshold.
pub open spec fn flow_emits(s: Seq<Trade>, window: int, threshold: int) -> bool {
    let b = wbuy_from(s, 0);
    let sv = wsell_from(s, 0);
    s.len() >= window / 4 && b + sv > 0 && abs_int(flow_imb(b, sv)) >= threshold
}

/// Flow statistics for monitoring.
#[derive(Clone, Debug)]
pub struct FlowStats {
    pub trade_count: usize,
    pub buy_volume: i64,
    pub sell_volume: i64,
    pub imbalance: Option<i64>,
}

/// Decayed-volume trade-flow detector.
#[derive(Debug)]
pub struct FlowAnalyzer {
    trades: Vec<Trade>,
    window_size: usize,
    time_window_ms: u64,
    threshold: i64,
}

impl FlowAnalyzer {
    /// The kept trades, oldest first.
    pub closed spec fn spec_trades(self) -> Seq<Trade> {
        self.trades@
    }

    /// Count window capacity.
    pub closed spec fn spec_window(self) -> int {
        self.window_size as int
    }

    /// Age window in milliseconds.
    pub closed spec fn spec_time_window(self) -> u64 {
        self.time_window_ms
    }

    /// Imbalance threshold at fixed-point scale.
    pub closed spec fn spec_threshold(self) -> int {
        self.threshold as int
    }

    /// Configuration in range, window respected, every kept trade valid.
    pub open spec fn wf(self) -> bool {
        &&& 1 <= self.spec_window() <= FLOW_WINDOW_MAX as int
        &&& 1 <= self.spec_threshold()
        &&& self.spec_trades().len() <= self.spec_window()
        &&& forall|i: int| 0 <= i < self.spec_trades().len() ==> (#[trigger] self.spec_trades()[i]).wf()
    }

    /// Whether the configuration passed to [`Self::new`] is accepted.
    pub open spec fn config_ok(window_size: int, threshold: int) -> bool {
        1 <= window_size <= FLOW_WINDOW_MAX as int && threshold >= 1
    }

    /// Builds an analyzer with an empty window. The decay factor is fixed
    /// at 0.95 per step.
    pub fn new(window_size: usize, time_window_ms: u64, threshold: i64) -> (r: FlowAnalyzer)
        requires
            Self::config_ok(window_size as int, threshold as int),
        ensures
            r.wf(),
            r.spec_window() == window_size as int,
            r.spec_time_window() == time_window_ms,
            r.spec_threshold() == threshold as int,
            r.spec_trades().len() == 0,
    {
        FlowAnalyzer { trades: Vec::new(), window_size, time_window_ms, threshold }
    }

    /// Takes one trade into the window and possibly emits a signal, taking
    /// the current time for eviction and for the signal's timestamp. Exact
    /// behaviour: the trade enters the window (old and surplus trades leave
    /// from the front), and a signal is emitted iff the window holds at
    /// least a quarter of its capacity, the weighted volume is positive,
    /// and the flow imbalance reaches the threshold.
    pub fn process_trade_at(&mut self, trade: Trade, now_ms: u64) -> (r: Option<Signal>)
        requires
            old(self).wf(),
            trade.wf(),
        ensures
            final(self).wf(),
            final(self).spec_window() == old(self).spec_window(),
            final(self).spec_time_window() == old(self).spec_time_window(),
            final(self).spec_threshold() == old(self).spec_threshold(),
            final(self).spec_trades() == flow_window_after(
                old(self).spec_trades(),
                trade,
                now_ms,
                old(self).spec_time_window(),
                old(self).spec_window(),
            ),
            ({
                let s3 = flow_window_after(
                    old(self).spec_trades(),
                    trade,
                    now_ms,
                    old(self).spec_time_window(),
                    old(self).spec_window(),
                );
                let b = wbuy_from(s3, 0);
                let sv = wsell_from(s3, 0);
                &&& (r is Some <==> flow_emits(s3, old(self).spec_window(), old(self).spec_threshold()))
                &&& (r matches Some(sig) ==> {
                    let imb = flow_imb(b, sv);
                    &&& sig.strength == flow_strength(imb, old(self).spec_threshold())
                    &&& sig.direction == (if imb > 0 {
                        Side::Buy
                    } else {
                        Side::Sell
                    })
                    &&& sig.confidence == flow_conf(s3.len() as int, old(self).spec_window(), imb)
                    &&& sig.timestamp_ms == now_ms
                    &&& sig.components@.len() == 4
                    &&& sig.components@[0].name@ == "buy_volume"@ && sig.components@[0].value == b
                    &&& sig.components@[1].name@ == "sell_volume"@ && sig.components@[1].value == sv
                    &&& sig.components@[2].name@ == "imbalance"@ && sig.components@[2].value == imb
                    &&& sig.components@[3].name@ == "trade_count"@ && sig.components@[3].value
                        == s3.len()
                })
            }),
    {
        self.trades.push(trade);
        self.cleanup_old_trades(now_ms);
        let ghost s3 = self.trades@;

        if self.trades.len() < self.window_size / 4 {
            return None;
        }

        let (buy_volume, sell_volume) = weighted_volumes(&self.trades);
        let total: i64 = buy_volume + sell_volume;
        if total == 0 {
            return None;
        }

        // signed imbalance, sign and magnitude separately
        let (neg, imb_mag): (bool, i64) = if buy_volume >= sell_volume {
            let d = buy_volume - sell_volume;
            proof {
                lemma_ratio_le_scale(d as int, total as int);
            }
            (false, ((d as i128) * (SCALE as i128) / (total as i128)) as i64)
        } else {
            let d = sell_volume - buy_volume;
            proof {
                lemma_ratio_le_scale(d as int, total as int);
            }
            (true, ((d as i128) * (SCALE as i128) / (total as i128)) as i64)
        };
        let ghost imb = flow_imb(wbuy_from(s3, 0), wsell_from(s3, 0));
        proof {
            if neg {
                assert(imb == -imb_mag);
            } else {
                assert(imb == imb_mag);
            }
            assert(abs_int(imb) == imb_mag);
        }

        if imb_mag < self.threshold {
            return None;
        }

        let direction = if !neg && imb_mag > 0 {
            Side::Buy
        } else {
            Side::Sell
        };
        proof {
            if imb > 0 {
                assert(!neg && imb_mag > 0);
            }
        }

        let strength: i64 = {
            let m = ((imb_mag as i128) * (SCALE as i128) / (self.threshold as i128)) as i64;
            proof {
                vstd::arithmetic::div_mod::lemma_div_pos_is_pos(
                    (imb_mag as int) * scale(),
                    self.threshold as int,
                );
                assert((imb_mag as int) * scale() >= 0) by (nonlinear_arith)
                    requires
                        imb_mag >= 0,
                ;
                assert((imb_mag as int) * scale() <= 100_000_000) by (nonlinear_arith)
                    requires
                        0 <= imb_mag <= 10_000,
                ;
                vstd::arithmetic::div_mod::lemma_div_is_ordered(
                    (imb_mag as int) * scale(),
                    100_000_000,
                    self.threshold as int,
                );
                vstd::arithmetic::div_mod::lemma_div_is_ordered_by_denominator(
                    100_000_000,
                    1,
                    self.threshold as int,
                );
                vstd::arithmetic::div_mod::lemma_div_basics_2(100_000_000);
            }
            if neg {
                -m
            } else {
                m
            }
        };

        let count_factor: i64 = {
            let raw = ((self.trades.len() as i128) * (SCALE as i128) / (self.window_size as i128))
                as i64;
            proof {
                lemma_ratio_le_scale(self.trades@.len() as int, self.spec_window());
            }
            if raw > SCALE {
                SCALE
            } else {
                raw
            }
        };
        let imb_factor: i64 = if imb_mag > SCALE {
            SCALE
        } else {
            imb_mag
        };
        let conf_raw: i64 = count_factor * 3 / 10 + imb_factor * 7 / 10;
        let confidence: i64 = if conf_raw > SCALE {
            SCALE
        } else {
            conf_raw
        };

        let trade_count: i64 = self.trades.len() as i64;
        let mut components: Vec<SignalComponent> = Vec::new();
        components.push(SignalComponent::new("buy_volume", buy_volume, SCALE));
        components.push(SignalComponent::new("sell_volume", sell_volume, SCALE));
        components.push(SignalComponent::new("imbalance", if neg {
            -imb_mag
        } else {
            imb_mag
        }, SCALE));
        components.push(SignalComponent::new("trade_count", trade_count, 0));

        Some(
            Signal {
                strength,
                direction,
                confidence,
                timestamp_ms: now_ms,
                components,
            },
        )
    }

    /// Takes one trade against the wall clock; apart from eviction and the
    /// signal's timestamp, which follow whatever the clock returned, this
    /// behaves exactly like [`Self::process_trade_at`].
    pub fn process_trade(&mut self, trade: Trade) -> (r: Option<Signal>)
        requires
            old(self).wf(),
            trade.wf(),
        ensures
            final(self).wf(),
            final(self).spec_window() == old(self).spec_window(),
            final(self).spec_time_window() == old(self).spec_time_window(),
            final(self).spec_threshold() == old(self).spec_threshold(),
            exists|now: u64|
                #![trigger flow_window_after(
                    old(self).spec_trades(),
                    trade,
                    now,
                    old(self).spec_time_window(),
                    old(self).spec_window(),
                )]
                {
                    let s3 = flow_window_after(
                        old(self).spec_trades(),
                        trade,
                        now,
                        old(self).spec_time_window(),
                        old(self).spec_window(),
                    );
                    final(self).spec_trades() == s3 && (r is Some <==> flow_emits(
                        s3,
                        old(self).spec_window(),
                        old(self).spec_threshold(),
                    ))
                },
    {
        let now = crate::clock::now_millis();
        let r = self.process_trade_at(trade, now);
        proof {
            let s3 = flow_window_after(
                old(self).spec_trades(),
                trade,
                now,
                old(self).spec_time_window(),
                old(self).spec_window(),
            );
            assert(final(self).spec_trades() == s3 && (r is Some <==> flow_emits(
                s3,
                old(self).spec_window(),
                old(self).spec_threshold(),
            )));
        }
        r
    }

    /// Evicts front trades older than the time window, then surplus trades
    /// beyond the count window.
    fn cleanup_old_trades(&mut self, now_ms: u64)
        requires
            1 <= old(self).spec_window(),
        ensures
            final(self).spec_trades() == evict_count(
                evict_time(
                    old(self).spec_trades(),
                    cutoff_of(now_ms, old(self).spec_time_window()),
                ),
                old(self).spec_window(),
            ),
            final(self).spec_window() == old(self).spec_window(),
            final(self).spec_time_window() == old(self).spec_time_window(),
            final(self).spec_threshold() == old(self).spec_threshold(),
            final(self).spec_trades().len() <= old(self).spec_window(),
            forall|i: int|
                0 <= i < final(self).spec_trades().len() ==> old(self).spec_trades().contains(
                    #[trigger] final(self).spec_trades()[i],
                ),
    {
        let cutoff: u64 = if now_ms >= self.time_window_ms {
            now_ms - self.time_window_ms
        } else {
            0
        };
        let ghost s0 = self.trades@;
        let ghost co = cutoff_of(now_ms, self.time_window_ms);
        while self.trades.len() > 0 && self.trades[0].timestamp_ms < cutoff
            invariant
                co == cutoff as int,
                evict_time(s0, co) == evict_time(self.trades@, co),
                forall|i: int| 0 <= i < self.trades@.len() ==> s0.contains(#[trigger] self.trades@[i]),
                self.window_size == old(self).window_size,
                self.time_window_ms == old(self).time_window_ms,
                self.threshold == old(self).threshold,
            decreases self.trades@.len(),
        {
            proof {
                assert(self.trades@.drop_first() =~= self.trades@.remove(0));
                assert forall|i: int|
                    0 <= i < self.trades@.drop_first().len() implies s0.contains(
                    #[trigger] self.trades@.drop_first()[i],
                ) by {
                    assert(self.trades@.drop_first()[i] == self.trades@[i + 1]);
                }
            }
            self.trades.remove(0);
        }
        proof {
            assert(evict_time(self.trades@, co) == self.trades@);
        }
        let ghost s1 = self.trades@;
        while self.trades.len() > self.window_size
            invariant
                evict_count(s1, old(self).spec_window()) == evict_count(
                    self.trades@,
                    old(self).spec_window(),
                ),
                forall|i: int| 0 <= i < self.trades@.len() ==> s0.contains(#[trigger] self.trades@[i]),
                self.window_size == old(self).window_size,
                self.time_window_ms == old(self).time_window_ms,
                self.threshold == old(self).threshold,
            decreases self.trades@.len(),
        {
            proof {
                assert(self.trades@.drop_first() =~= self.trades@.remove(0));
                assert forall|i: int|
                    0 <= i < self.trades@.drop_first().len() implies s0.contains(
                    #[trigger] self.trades@.drop_first()[i],
                ) by {
                    assert(self.trades@.drop_first()[i] == self.trades@[i + 1]);
                }
            }
            self.trades.remove(0);
        }
        proof {
            assert(evict_count(self.trades@, old(self).spec_window()) == self.trades@);
        }
    }

    /// Current weighted-flow statistics, for monitoring.
    pub fn get_stats(&self) -> (r: FlowStats)
        requires
            self.wf(),
        ensures
            r.trade_count == self.spec_trades().len(),
            r.buy_volume == wbuy_from(self.spec_trades(), 0),
            r.sell_volume == wsell_from(self.spec_trades(), 0),
            ({
                let b = wbuy_from(self.spec_trades(), 0);
                let sv = wsell_from(self.spec_trades(), 0);
                if b + sv > 0 {
                    r.imbalance matches Some(x) && x as int == flow_imb(b, sv)
                } else {
                    r.imbalance is None
                }
            }),
    {
        let (buy_volume, sell_volume) = weighted_volumes(&self.trades);
        let total: i64 = buy_volume + sell_volume;
        let imbalance: Option<i64> = if total > 0 {
            if buy_volume >= sell_volume {
                let d = buy_volume - sell_volume;
                proof {
                    lemma_ratio_le_scale(d as int, total as int);
                }
                Some(((d as i128) * (SCALE as i128) / (total as i128)) as i64)
            } else {
                let d = sell_volume - buy_volume;
                proof {
                    lemma_ratio_le_scale(d as int, total as int);
                }
                Some(-(((d as i128) * (SCALE as i128) / (total as i128)) as i64))
            }
        } else {
            None
        };
        FlowStats { trade_count: self.trades.len(), buy_volume, sell_volume, imbalance }
    }

    /// Clears the window; the configuration stays.
    pub fn reset(&mut self)
        ensures
            final(self).spec_trades().len() == 0,
            final(self).spec_window() == old(self).spec_window(),
            final(self).spec_time_window() == old(self).spec_time_window(),
            final(self).spec_threshold() == old(self).spec_threshold(),
            old(self).wf() ==> final(self).wf(),
    {
        self.trades.clear();
    }
}

/// `0 <= d * SCALE / t <= SCALE` whenever `0 <= d <= t` and `t` is positive.
proof fn lemma_ratio_le_scale(d: int, t: int)
    requires
        0 <= d,
        1 <= t,
        d <= t,
    ensures
        0 <= d * scale() / t <= scale(),
{
    vstd::arithmetic::div_mod::lemma_div_pos_is_pos(d * scale(), t);
    assert(d * scale() >= 0) by (nonlinear_arith)
        requires
            d >= 0,
    ;
    assert(d * scale() <= t * scale()) by (nonlinear_arith)
        requires
            0 <= d <= t,
    ;
    vstd::arithmetic::div_mod::lemma_div_is_ordered(d * scale(), t * scale(), t);
    vstd::arithmetic::div_mod::lemma_div_multiples_vanish(scale(), t);
}

/// Weighted aggressive volumes over the window, newest trade first, decay
/// 0.95 per step.
fn weighted_volumes(v: &Vec<Trade>) -> (r: (i64, i64))
    requires
        v@.len() <= FLOW_WINDOW_MAX as int + 1,
        forall|i: int| 0 <= i < v@.len() ==> (#[trigger] v@[i]).wf(),
    ensures
        r.0 == wbuy_from(v@, 0),
        r.1 == wsell_from(v@, 0),
        0 <= r.0 <= v@.len() * MAX_QTY,
        0 <= r.1 <= v@.len() * MAX_QTY,
        r.0 + r.1 <= i64::MAX,
{
    let n = v.len();
    let mut buy: i64 = 0;
    let mut sell: i64 = 0;
    let mut w: i64 = SCALE;
    let mut i: usize = n;
    let mut k: usize = 0;
    while i > 0
        invariant
            0 <= i <= n,
            n == v@.len(),
            v@.len() <= FLOW_WINDOW_MAX as int + 1,
            forall|j: int| 0 <= j < v@.len() ==> (#[trigger] v@[j]).wf(),
            k == n - i,
            w == weight_at(k as nat),
            0 <= w <= SCALE,
            buy == wbuy_from(v@, i as int),
            sell == wsell_from(v@, i as int),
            0 <= buy <= k * MAX_QTY,
            0 <= sell <= k * MAX_QTY,
        decreases i,
    {
        i = i - 1;
        let t = &v[i];
        proof {
            assert(v@[i as int].wf());
            assert((v@.len() - 1 - i as int) as nat == k as nat);
            lemma_contrib_bounds(v@[i as int], w as int);
            assert(k * MAX_QTY + MAX_QTY == (k + 1) * MAX_QTY) by (nonlinear_arith);
            assert((k + 1) * MAX_QTY <= 4097 * MAX_QTY) by (nonlinear_arith)
                requires
                    0 <= k + 1 <= 4097,
            ;
        }
        if t.is_aggressive_buy() {
            let c: i64 = (((t.quantity as i128) * (w as i128)) / (SCALE as i128)) as i64;
            buy = buy + c;
        } else if t.is_aggressive_sell() {
            let c: i64 = (((t.quantity as i128) * (w as i128)) / (SCALE as i128)) as i64;
            sell = sell + c;
        }
        proof {
            lemma_weight_at_bounds((k + 1) as nat);
        }
        w = w * 95 / 100;
        k = k + 1;
    }
    proof {
        assert(buy <= 4097 * MAX_QTY) by (nonlinear_arith)
            requires
                buy <= k * MAX_QTY,
                0 <= k <= 4097,
        ;
        assert(sell <= 4097 * MAX_QTY) by (nonlinear_arith)
            requires
                sell <= k * MAX_QTY,
                0 <= k <= 4097,
        ;
    }
    (buy, sell)
}

/// A single weighted contribution is between zero and the trade's quantity.
proof fn lemma_contrib_bounds(t: Trade, w: int)
    requires
        t.wf(),
        0 <= w <= scale(),
    ensures
        0 <= buy_contrib(t, w) <= t.quantity,
        0 <= sell_contrib(t, w) <= t.quantity,
        buy_contrib(t, w) <= MAX_QTY,
        sell_contrib(t, w) <= MAX_QTY,
        buy_contrib(t, w) == 0 || sell_contrib(t, w) == 0,
        t.spec_is_aggressive_buy() ==> buy_contrib(t, w) == (t.quantity as int) * w / scale(),
        t.spec_is_aggressive_sell() ==> sell_contrib(t, w) == (t.quantity as int) * w / scale(),
    {
    let q = t.quantity as int;
    vstd::arithmetic::div_mod::lemma_div_pos_is_pos(q * w, scale());
    assert(q * w >= 0) by (nonlinear_arith)
        requires
            q >= 0,
            w >= 0,
    ;
    assert(q * w <= q * scale()) by (nonlinear_arith)
        requires
            q >= 0,
            w <= scale(),
    ;
    vstd::arithmetic::div_mod::lemma_div_is_ordered(q * w, q * scale(), scale());
    vstd::arithmetic::div_mod::lemma_div_multiples_vanish(q, scale());
}

} // verus!
