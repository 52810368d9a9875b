//! Order-book imbalance detector: a rolling-window z-score over the
//! bid/ask depth ratio.
//!
//! Each sample is the fixed-point imbalance ratio of the book; the detector
//! keeps at most `window_size` samples, computes the population mean and
//! standard deviation, and emits a signal when the newest sample deviates
//! from the mean by at least `threshold` standard deviations.

use vstd::prelude::*;
use crate::num::{SCALE, scale, clamp_i64, clamp_to_i64, floor_sqrt, is_floor_sqrt, isqrt_u128};
use crate::types::{Side, Signal, SignalComponent, MAX_QTY};
use crate::book::{OrderBook, imbalance_of, lemma_imbalance_in_range};

verus! {

/// Most price levels a detector may look at per side.
pub const LEVELS_MAX: usize = 64;

/// Largest rolling-window capacity a detector may be configured with.
pub const WINDOW_MAX: usize = 4096;

/// Largest ratio a detector can ever sample: `LEVELS_MAX * MAX_QTY * SCALE`.
pub const RATIO_CAP: i64 = 6_400_000_000_000_000;

/// Sum of a sample sequence.
pub open spec fn sum_i(s: Seq<i64>) -> int
    decreases s.len(),
{
    if s.len() == 0 {
        0
    } else {
        sum_i(s.drop_last()) + s.last()
    }
}

/// Population mean (floor), zero on an empty history.
pub open spec fn det_mean(s: Seq<i64>) -> int {
    if s.len() == 0 {
        0
    } else {
        sum_i(s) / s.len() as int
    }
}

/// Sum of squared deviations from `m`.
pub open spec fn sq_dev_sum(s: Seq<i64>, m: int) -> int
    decreases s.len(),
{
    if s.len() == 0 {
        0
    } else {
        sq_dev_sum(s.drop_last(), m) + (s.last() - m) * (s.last() - m)
    }
}

/// Population variance (floor), zero below two samples.
pub open spec fn det_var(s: Seq<i64>) -> int {
    if s.len() < 2 {
        0
    } else {
        sq_dev_sum(s, det_mean(s)) / s.len() as int
    }
}

/// Population standard deviation: the floor square root of the variance.
pub open spec fn det_sd(s: Seq<i64>) -> int {
    floor_sqrt(det_var(s))
}

/// The window after one sample: append, then evict the oldest entry if the
/// window would overflow.
pub open spec fn push_evict(s: Seq<i64>, x: i64, w: int) -> Seq<i64> {
    if s.len() + 1 > w {
        s.push(x).drop_first()
    } else {
        s.push(x)
    }
}

/// Z-score of the newest sample against the window, at fixed-point scale.
/// Meaningful only when the standard deviation is positive.
pub open spec fn z_of(h: Seq<i64>) -> int {
    let mu = det_mean(h);
    let sd = det_sd(h);
    let r = h.last() as int;
    if r >= mu {
        (r - mu) * scale() / sd
    } else {
        -((mu - r) * scale() / sd)
    }
}

/// Absolute value of an `int`.
pub open spec fn abs_int(x: int) -> int {
    if x >= 0 {
        x
    } else {
        -x
    }
}

/// Whether a window of samples makes the detector emit: enough samples,
/// a non-degenerate standard deviation, and a z-score at or past the
/// threshold.
pub open spec fn detector_emits(h: Seq<i64>, min_samples: int, threshold: int) -> bool {
    h.len() >= min_samples && h.len() >= 1 && det_sd(h) >= 1 && abs_int(z_of(h)) >= threshold
}

/// Confidence of an emitted signal: `min(|z| / (threshold + 1), 1)` at
/// fixed-point scale.
pub open spec fn det_confidence(h: Seq<i64>, threshold: int) -> int {
    let c = abs_int(z_of(h)) * scale() / (threshold + scale());
    if c > scale() {
        scale()
    } else {
        c
    }
}

/// Detector statistics for monitoring.
#[derive(Clone, Debug)]
pub struct ImbalanceStats {
    pub current_ratio: Option<i64>,
    pub mean: i64,
    pub stddev: i64,
    pub sample_count: usize,
}

/// Rolling-window z-score detector over order-book imbalance ratios.
#[derive(Debug)]
pub struct ImbalanceDetector {
    levels: usize,
    history: Vec<i64>,
    window_size: usize,
    threshold: i64,
    min_samples: usize,
}

impl ImbalanceDetector {
    /// Number of price levels sampled per side.
    pub closed spec fn spec_levels(self) -> int {
        self.levels as int
    }

    /// The rolling window of ratio samples, oldest first.
    pub closed spec fn spec_history(self) -> Seq<i64> {
        self.history@
    }

    /// Window capacity.
    pub closed spec fn spec_window(self) -> int {
        self.window_size as int
    }

    /// Z-score threshold at fixed-point scale.
    pub closed spec fn spec_threshold(self) -> int {
        self.threshold as int
    }

    /// Samples required before any signal: half the window.
    pub closed spec fn spec_min_samples(self) -> int {
        self.min_samples as int
    }

    /// Configuration in range, history within the window, every sample a
    /// possible ratio.
    pub open spec fn wf(self) -> bool {
        &&& 1 <= self.spec_levels() <= LEVELS_MAX as int
        &&& 1 <= self.spec_window() <= WINDOW_MAX as int
        &&& self.spec_min_samples() == self.spec_window() / 2
        &&& 0 <= self.spec_threshold() <= i64::MAX - SCALE
        &&& self.spec_history().len() <= self.spec_window()
        &&& forall|i: int|
            0 <= i < self.spec_history().len() ==> 0 <= #[trigger] self.spec_history()[i]
                <= RATIO_CAP
    }

    /// Whether the configuration passed to [`Self::new`] is accepted: the
    /// bounds the fixed-width arithmetic forces.
    pub open spec fn config_ok(levels: int, window_size: int, threshold: int) -> bool {
        &&& 1 <= levels <= LEVELS_MAX as int
        &&& 1 <= window_size <= WINDOW_MAX as int
        &&& 0 <= threshold <= i64::MAX - SCALE
    }

    /// Builds a detector with an empty history; `min_samples` is half the
    /// window, so no signal is emitted before that many samples.
    pub fn new(levels: usize, window_size: usize, threshold: i64) -> (r: ImbalanceDetector)
        requires
            Self::config_ok(levels as int, window_size as int, threshold as int),
        ensures
            r.wf(),
            r.spec_levels() == levels as int,
            r.spec_window() == window_size as int,
            r.spec_threshold() == threshold as int,
            r.spec_min_samples() == window_size as int / 2,
            r.spec_history().len() == 0,
    {
        ImbalanceDetector {
            levels,
            history: Vec::new(),
            window_size,
            threshold,
            min_samples: window_size / 2,
        }
    }

    /// Samples the book and possibly emits a signal, taking the current
    /// time for the signal's timestamp. Exact behaviour:
    /// - an undefined ratio leaves the detector untouched and emits nothing;
    /// - otherwise the ratio enters the window (evicting the oldest sample
    ///   past capacity) and a signal is emitted iff the window holds at
    ///   least `min_samples` samples, the standard deviation is positive,
    ///   and `|z| >= threshold`.
    pub fn calculate_signal_at(&mut self, orderbook: &OrderBook, now_ms: u64) -> (r: Option<
        Signal,
    >)
        requires
            old(self).wf(),
            orderbook.wf(),
        ensures
            final(self).wf(),
            final(self).spec_levels() == old(self).spec_levels(),
            final(self).spec_window() == old(self).spec_window(),
            final(self).spec_threshold() == old(self).spec_threshold(),
            final(self).spec_min_samples() == old(self).spec_min_samples(),
            ({
                let ib = imbalance_of(
                    orderbook.spec_bids(),
                    orderbook.spec_asks(),
                    old(self).spec_levels(),
                );
                match ib {
                    Option::None => final(self).spec_history() == old(self).spec_history() && r
                        is None,
                    Option::Some(ratio) => {
                        let h2 = push_evict(
                            old(self).spec_history(),
                            ratio as i64,
                            old(self).spec_window(),
                        );
                        &&& final(self).spec_history() == h2
                        &&& (r is Some <==> detector_emits(
                            h2,
                            old(self).spec_min_samples(),
                            old(self).spec_threshold(),
                        ))
                        &&& (r matches Some(sig) ==> {
                            &&& sig.strength == clamp_i64(z_of(h2))
                            &&& sig.direction == (if z_of(h2) > 0 {
                                Side::Buy
                            } else {
                                Side::Sell
                            })
                            &&& sig.confidence == det_confidence(h2, old(self).spec_threshold())
                            &&& sig.timestamp_ms == now_ms
                            &&& sig.components@.len() == 4
                            &&& sig.components@[0].name@ == "imbalance_ratio"@ && sig.components@[0].value
                                == ratio && sig.components@[0].weight == SCALE
                            &&& sig.components@[1].name@ == "mean"@ && sig.components@[1].value
                                == det_mean(h2) && sig.components@[1].weight == 0
                            &&& sig.components@[2].name@ == "stddev"@ && sig.components@[2].value
                                == det_sd(h2) && sig.components@[2].weight == 0
                            &&& sig.components@[3].name@ == "z_score"@ && sig.components@[3].value
                                == clamp_i64(z_of(h2)) && sig.components@[3].weight == SCALE
                        })
                    },
                }
            }),
    {
        let ratio_wide: i128 = match orderbook.calculate_imbalance(self.levels) {
            None => {
                return None;
            },
            Some(x) => x,
        };
        proof {
            lemma_imbalance_in_range(
                orderbook.spec_bids(),
                orderbook.spec_asks(),
                self.spec_levels(),
            );
            assert(self.spec_levels() * MAX_QTY * scale() <= RATIO_CAP) by (nonlinear_arith)
                requires
                    1 <= self.spec_levels() <= 64,
            ;
        }
        let ratio: i64 = ratio_wide as i64;

        self.history.push(ratio);
        if self.history.len() > self.window_size {
            self.history.remove(0);
            proof {
                assert(old(self).spec_history().push(ratio).remove(0) =~= old(
                    self,
                ).spec_history().push(ratio).drop_first());
            }
        }
        let ghost h2 = self.history@;

        if self.history.len() < self.min_samples {
            return None;
        }

        let mean = calc_mean(&self.history);
        let sd = calc_stddev(&self.history, mean);
        if sd == 0 {
            return None;
        }

        // z-score of the newest sample, sign and magnitude separately
        proof {
            assert(h2.last() == ratio);
        }
        let (z_neg, z_mag): (bool, i128) = if ratio >= mean {
            (false, ((ratio - mean) as i128) * (SCALE as i128) / (sd as i128))
        } else {
            (true, ((mean - ratio) as i128) * (SCALE as i128) / (sd as i128))
        };
        proof {
            assert(z_mag >= 0) by {
                vstd::arithmetic::div_mod::lemma_div_pos_is_pos(
                    (if ratio >= mean {
                        (ratio - mean) as int
                    } else {
                        (mean - ratio) as int
                    }) * scale(),
                    sd as int,
                );
                assert((if ratio >= mean {
                    (ratio - mean) as int
                } else {
                    (mean - ratio) as int
                }) * scale() >= 0) by (nonlinear_arith)
                    requires
                        (if ratio >= mean {
                            (ratio - mean) as int
                        } else {
                            (mean - ratio) as int
                        }) >= 0,
                ;
            }
            if z_neg {
                assert(z_of(h2) == -z_mag);
            } else {
                assert(z_of(h2) == z_mag);
            }
            assert(abs_int(z_of(h2)) == z_mag);
        }

        if z_mag < self.threshold as i128 {
            return None;
        }

        let direction = if !z_neg && z_mag > 0 {
            Side::Buy
        } else {
            Side::Sell
        };
        proof {
            if z_of(h2) > 0 {
                assert(!z_neg && z_mag > 0);
            } else {
                assert(z_neg || z_mag == 0);
            }
        }

        let strength: i64 = if z_neg {
            clamp_to_i64(-z_mag)
        } else {
            clamp_to_i64(z_mag)
        };

        let conf_raw: i128 = z_mag * (SCALE as i128) / ((self.threshold + SCALE) as i128);
        proof {
            vstd::arithmetic::div_mod::lemma_div_pos_is_pos(
                z_mag * scale(),
                (self.threshold + SCALE) as int,
            );
            assert(z_mag * scale() >= 0) by (nonlinear_arith)
                requires
                    z_mag >= 0,
            ;
        }
        let confidence: i64 = if conf_raw > SCALE as i128 {
            SCALE
        } else {
            conf_raw as i64
        };

        let mut components: Vec<SignalComponent> = Vec::new();
        components.push(SignalComponent::new("imbalance_ratio", ratio, SCALE));
        components.push(SignalComponent::new("mean", mean, 0));
        components.push(SignalComponent::new("stddev", sd, 0));
        components.push(SignalComponent::new("z_score", strength, SCALE));

        Some(
            Signal {
                strength,
                direction,
                confidence,
                timestamp_ms: now_ms,
                components,
            },
        )
    }

    /// Samples the book against the wall clock; apart from the signal's
    /// timestamp, which carries whatever the clock returned, this behaves
    /// exactly like [`Self::calculate_signal_at`].
    pub fn calculate_signal(&mut self, orderbook: &OrderBook) -> (r: Option<Signal>)
        requires
            old(self).wf(),
            orderbook.wf(),
        ensures
            final(self).wf(),
            final(self).spec_levels() == old(self).spec_levels(),
            final(self).spec_window() == old(self).spec_window(),
            final(self).spec_threshold() == old(self).spec_threshold(),
            final(self).spec_min_samples() == old(self).spec_min_samples(),
            ({
                let ib = imbalance_of(
                    orderbook.spec_bids(),
                    orderbook.spec_asks(),
                    old(self).spec_levels(),
                );
                match ib {
                    Option::None => final(self).spec_history() == old(self).spec_history() && r
                        is None,
                    Option::Some(ratio) => {
                        let h2 = push_evict(
                            old(self).spec_history(),
                            ratio as i64,
                            old(self).spec_window(),
                        );
                        &&& final(self).spec_history() == h2
                        &&& (r is Some <==> detector_emits(
                            h2,
                            old(self).spec_min_samples(),
                            old(self).spec_threshold(),
                        ))
                        &&& (r matches Some(sig) ==> sig.strength == clamp_i64(z_of(h2))
                            && sig.direction == (if z_of(h2) > 0 {
                            Side::Buy
                        } else {
                            Side::Sell
                        }) && sig.confidence == det_confidence(h2, old(self).spec_threshold()))
                    },
                }
            }),
    {
        let now = crate::clock::now_millis();
        self.calculate_signal_at(orderbook, now)
    }

    /// Current statistics over the window, for monitoring.
    pub fn get_stats(&self) -> (r: ImbalanceStats)
        requires
            self.wf(),
        ensures
            r.current_ratio == (if self.spec_history().len() > 0 {
                Some(self.spec_history().last())
            } else {
                Option::<i64>::None
            }),
            r.mean == det_mean(self.spec_history()),
            r.stddev == det_sd(self.spec_history()),
            r.sample_count == self.spec_history().len(),
    {
        let mean = calc_mean(&self.history);
        let stddev = calc_stddev(&self.history, mean);
        let current_ratio = if self.history.len() > 0 {
            Some(self.history[self.history.len() - 1])
        } else {
            None
        };
        ImbalanceStats { current_ratio, mean, stddev, sample_count: self.history.len() }
    }

    /// Clears the history; the configuration stays.
    pub fn reset(&mut self)
        ensures
            final(self).spec_history().len() == 0,
            final(self).spec_levels() == old(self).spec_levels(),
            final(self).spec_window() == old(self).spec_window(),
            final(self).spec_threshold() == old(self).spec_threshold(),
            final(self).spec_min_samples() == old(self).spec_min_samples(),
            old(self).wf() ==> final(self).wf(),
    {
        self.history.clear();
    }
}

/// Population mean over the window.
fn calc_mean(v: &Vec<i64>) -> (r: i64)
    requires
        v@.len() <= WINDOW_MAX as int,
        forall|i: int| 0 <= i < v@.len() ==> 0 <= #[trigger] v@[i] <= RATIO_CAP,
    ensures
        r == det_mean(v@),
        0 <= r <= RATIO_CAP,
{
    if v.len() == 0 {
        return 0;
    }
    let n = v.len();
    let mut sum: i128 = 0;
    let mut i: usize = 0;
    while i < n
        invariant
            0 <= i <= n,
            n == v@.len(),
            v@.len() <= WINDOW_MAX as int,
            forall|k: int| 0 <= k < v@.len() ==> 0 <= #[trigger] v@[k] <= RATIO_CAP,
            sum == sum_i(v@.take(i as int)),
            0 <= sum <= i * (RATIO_CAP as int),
        decreases n - i,
    {
        proof {
            assert(v@.take(i + 1).drop_last() =~= v@.take(i as int));
            assert(v@.take(i + 1).last() == v@[i as int]);
            assert(i * (RATIO_CAP as int) + RATIO_CAP <= (i + 1) * (RATIO_CAP as int))
                by (nonlinear_arith);
            assert((i + 1) * (RATIO_CAP as int) <= 4096 * (RATIO_CAP as int)) by (nonlinear_arith)
                requires
                    0 <= i + 1 <= 4096,
            ;
        }
        sum = sum + (v[i] as i128);
        i = i + 1;
    }
    proof {
        assert(v@.take(n as int) =~= v@);
        assert(4096 * (RATIO_CAP as int) < i128::MAX as int);
        vstd::arithmetic::div_mod::lemma_div_pos_is_pos(sum as int, n as int);
        assert(sum <= n * (RATIO_CAP as int)) by (nonlinear_arith)
            requires
                sum <= (v@.len() as int) * (RATIO_CAP as int),
                n == v@.len(),
        ;
        vstd::arithmetic::div_mod::lemma_div_is_ordered(
            sum as int,
            (n as int) * (RATIO_CAP as int),
            n as int,
        );
        vstd::arithmetic::div_mod::lemma_div_multiples_vanish(RATIO_CAP as int, n as int);
        assert((n as int) * (RATIO_CAP as int) == (n as int) * (RATIO_CAP as int));
    }
    let mean = sum / (n as i128);
    mean as i64
}

/// Population standard deviation over the window, given its mean.
fn calc_stddev(v: &Vec<i64>, mean: i64) -> (r: i64)
    requires
        v@.len() <= WINDOW_MAX as int,
        forall|i: int| 0 <= i < v@.len() ==> 0 <= #[trigger] v@[i] <= RATIO_CAP,
        mean == det_mean(v@),
        0 <= mean <= RATIO_CAP,
    ensures
        r == det_sd(v@),
        0 <= r <= RATIO_CAP,
{
    if v.len() < 2 {
        proof {
            assert(det_var(v@) == 0);
            crate::num::lemma_floor_sqrt_zero();
        }
        return 0;
    }
    let n = v.len();
    let mut sum: i128 = 0;
    let mut i: usize = 0;
    while i < n
        invariant
            0 <= i <= n,
            n == v@.len(),
            2 <= v@.len() <= WINDOW_MAX as int,
            forall|k: int| 0 <= k < v@.len() ==> 0 <= #[trigger] v@[k] <= RATIO_CAP,
            0 <= mean <= RATIO_CAP,
            sum == sq_dev_sum(v@.take(i as int), mean as int),
            0 <= sum <= i * ((RATIO_CAP as int) * (RATIO_CAP as int)),
        decreases n - i,
    {
        proof {
            assert(v@.take(i + 1).drop_last() =~= v@.take(i as int));
            assert(v@.take(i + 1).last() == v@[i as int]);
        }
        let dev: i128 = (v[i] as i128) - (mean as i128);
        proof {
            assert(0 <= dev * dev <= (RATIO_CAP as int) * (RATIO_CAP as int)) by (nonlinear_arith)
                requires
                    -(RATIO_CAP as int) <= dev <= RATIO_CAP as int,
            ;
            assert(i * ((RATIO_CAP as int) * (RATIO_CAP as int)) + (RATIO_CAP as int) * (RATIO_CAP
                as int) <= (i + 1) * ((RATIO_CAP as int) * (RATIO_CAP as int)))
                by (nonlinear_arith);
            assert((i + 1) * ((RATIO_CAP as int) * (RATIO_CAP as int)) <= 4096 * ((RATIO_CAP as int)
                * (RATIO_CAP as int))) by (nonlinear_arith)
                requires
                    0 <= i + 1 <= 4096,
            ;
            assert(4096 * ((RATIO_CAP as int) * (RATIO_CAP as int)) < i128::MAX as int);
        }
        sum = sum + dev * dev;
        i = i + 1;
    }
    proof {
        assert(v@.take(n as int) =~= v@);
        vstd::arithmetic::div_mod::lemma_div_pos_is_pos(sum as int, n as int);
        assert(sum <= n * ((RATIO_CAP as int) * (RATIO_CAP as int))) by (nonlinear_arith)
            requires
                sum <= (v@.len() as int) * ((RATIO_CAP as int) * (RATIO_CAP as int)),
                n == v@.len(),
        ;
        vstd::arithmetic::div_mod::lemma_div_is_ordered(
            sum as int,
            (n as int) * ((RATIO_CAP as int) * (RATIO_CAP as int)),
            n as int,
        );
        vstd::arithmetic::div_mod::lemma_div_multiples_vanish(
            (RATIO_CAP as int) * (RATIO_CAP as int),
            n as int,
        );
    }
    let var: i128 = sum / (n as i128);
    let sd64: u64 = isqrt_u128(var as u128);
    proof {
        assert(det_var(v@) == var as int);
        assert(sd64 as int == floor_sqrt(det_var(v@)));
        assert((sd64 as int) <= RATIO_CAP as int) by (nonlinear_arith)
            requires
                is_floor_sqrt(var as int, sd64 as int),
                0 <= var as int <= (RATIO_CAP as int) * (RATIO_CAP as int),
        ;
    }
    sd64 as i64
}

/// A window of identical samples has zero variance, so the detector never
/// emits from it: a balanced book, whose ratio is the same every update,
/// produces no signal at any positive threshold.
pub proof fn lemma_constant_history_never_emits(h: Seq<i64>, min_samples: int, threshold: int)
    requires
        h.len() >= 1,
        threshold >= 1,
        forall|i: int| 0 <= i < h.len() ==> #[trigger] h[i] == h[0],
    ensures
        det_var(h) == 0,
        det_sd(h) == 0,
        !detector_emits(h, min_samples, threshold),
{
    let val = h[0] as int;
    lemma_const_sum(h, h[0]);
    if h.len() >= 2 {
        assert(det_mean(h) == val) by {
            vstd::arithmetic::div_mod::lemma_div_multiples_vanish(val, h.len() as int);
            assert((h.len() as int) * val == sum_i(h));
        }
        lemma_const_sq_dev(h, h[0], val);
        assert(det_var(h) == 0) by {
            vstd::arithmetic::div_mod::lemma_div_basics_1(h.len() as int);
        }
    } else {
        assert(det_var(h) == 0);
    }
    crate::num::lemma_floor_sqrt_zero();
    assert(det_sd(h) == 0);
}

/// Sum of a constant sequence.
proof fn lemma_const_sum(h: Seq<i64>, c: i64)
    requires
        forall|i: int| 0 <= i < h.len() ==> #[trigger] h[i] == c,
    ensures
        sum_i(h) == h.len() * (c as int),
    decreases h.len(),
{
    if h.len() == 0 {
    } else {
        let t = h.drop_last();
        assert(forall|i: int| 0 <= i < t.len() ==> #[trigger] t[i] == c);
        lemma_const_sum(t, c);
        assert(h.len() * (c as int) == t.len() * (c as int) + c) by (nonlinear_arith)
            requires
                h.len() == t.len() + 1,
        ;
    }
}

/// Squared deviations of a constant sequence from its value vanish.
proof fn lemma_const_sq_dev(h: Seq<i64>, c: i64, m: int)
    requires
        m == c as int,
        forall|i: int| 0 <= i < h.len() ==> #[trigger] h[i] == c,
    ensures
        sq_dev_sum(h, m) == 0,
    decreases h.len(),
{
    if h.len() == 0 {
    } else {
        let t = h.drop_last();
        assert(forall|i: int| 0 <= i < t.len() ==> #[trigger] t[i] == c);
        lemma_const_sq_dev(t, c, m);
        assert(h.last() == c);
        assert((h.last() - m) * (h.last() - m) == 0);
    }
}

} // verus!
