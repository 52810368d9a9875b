//! Signal aggregator: combines a batch of detector signals into one
//! composite trading decision.
//!
//! The strongest signal (by absolute strength, last one on ties) becomes the
//! primary; same-direction signals above the confirming threshold, other
//! than the primary itself (told apart by timestamp), confirm it. The
//! composite carries a blended confidence and strength.

use vstd::prelude::*;
use crate::num::{SCALE, scale, tdiv, tdiv_i128, clamp_i64, clamp_to_i64};
use crate::types::{Side, Signal, abs_i64, half_scale};

verus! {

/// Index of the last signal with maximal absolute strength.
pub open spec fn last_max_idx(s: Seq<Signal>) -> int
    decreases s.len(),
{
    if s.len() <= 1 {
        0
    } else {
        let r = last_max_idx(s.drop_last());
        if abs_i64(s.last().strength) >= abs_i64(s[r].strength) {
            s.len() - 1
        } else {
            r
        }
    }
}

/// The chosen index is in range and attains the maximum.
pub proof fn lemma_last_max_idx_in_range(s: Seq<Signal>)
    requires
        s.len() >= 1,
    ensures
        0 <= last_max_idx(s) < s.len(),
        forall|i: int|
            0 <= i < s.len() ==> abs_i64(#[trigger] s[i].strength) <= abs_i64(
                s[last_max_idx(s)].strength,
            ),
    decreases s.len(),
{
    if s.len() > 1 {
        lemma_last_max_idx_in_range(s.drop_last());
        let t = s.drop_last();
        assert forall|i: int|
            0 <= i < s.len() implies abs_i64(#[trigger] s[i].strength) <= abs_i64(
            s[last_max_idx(s)].strength,
        ) by {
            if i < s.len() - 1 {
                assert(t[i] == s[i]);
                assert(abs_i64(t[i].strength) <= abs_i64(t[last_max_idx(t)].strength));
            }
        }
    }
}

/// Whether `x` confirms the primary: same direction, strong enough, and not
/// the primary itself. Two distinct signals sharing the primary's exact
/// timestamp are treated as the primary and excluded; the timestamp is the
/// only identity the signals carry.
pub open spec fn is_confirming(x: Signal, primary: Signal, ct: int) -> bool {
    x.direction == primary.direction && abs_i64(x.strength) >= ct && x.timestamp_ms
        != primary.timestamp_ms
}

/// The confirming signals, in input order.
pub open spec fn confirming_of(s: Seq<Signal>, primary: Signal, ct: int) -> Seq<Signal> {
    s.filter(|x: Signal| is_confirming(x, primary, ct))
}

/// Extending the scanned prefix by one element extends its confirming
/// filtrate by that element exactly when it confirms.
proof fn lemma_confirming_step(s: Seq<Signal>, primary: Signal, ct: int, i: int)
    requires
        0 <= i < s.len(),
    ensures
        confirming_of(s.take(i + 1), primary, ct) == (if is_confirming(s[i], primary, ct) {
            confirming_of(s.take(i), primary, ct).push(s[i])
        } else {
            confirming_of(s.take(i), primary, ct)
        }),
{
    let tk1 = s.take(i + 1);
    assert(tk1.drop_last() =~= s.take(i));
    assert(tk1.last() == s[i]);
    reveal_with_fuel(Seq::filter, 2);
}

/// Sum of the strengths of a batch.
pub open spec fn sum_strength(s: Seq<Signal>) -> int
    decreases s.len(),
{
    if s.len() == 0 {
        0
    } else {
        sum_strength(s.drop_last()) + s.last().strength
    }
}

/// Sum of the confidences of a batch.
pub open spec fn sum_conf(s: Seq<Signal>) -> int
    decreases s.len(),
{
    if s.len() == 0 {
        0
    } else {
        sum_conf(s.drop_last()) + s.last().confidence
    }
}

/// Average strength of the confirming set, truncating toward zero; zero on
/// an empty set.
pub open spec fn avg_strength(s: Seq<Signal>) -> int {
    if s.len() == 0 {
        0
    } else {
        tdiv(sum_strength(s), s.len() as int)
    }
}

/// Average confidence of the confirming set, truncating toward zero; zero
/// on an empty set.
pub open spec fn avg_conf(s: Seq<Signal>) -> int {
    if s.len() == 0 {
        0
    } else {
        tdiv(sum_conf(s), s.len() as int)
    }
}

/// Composite confidence: 40% of the primary's confidence, 30% of a
/// confirming-count factor `min(n / (min_confirming + 2), 1)`, and 30% of
/// the average confirming confidence, capped at one.
pub open spec fn composite_confidence(primary: Signal, conf: Seq<Signal>, min_confirming: int) -> int {
    let t1 = tdiv(primary.confidence * 4, 10);
    let cf_raw = conf.len() * scale() / (min_confirming + 2);
    let cf = if cf_raw > scale() {
        scale()
    } else {
        cf_raw
    };
    let t2 = cf * 3 / 10;
    let t3 = tdiv(avg_conf(conf) * 3, 10);
    let c = t1 + t2 + t3;
    if c > scale() {
        scale()
    } else {
        c
    }
}

/// Overall strength: 60% of the primary's strength plus 40% of the average
/// confirming strength, saturated at the representable bounds.
pub open spec fn composite_strength(primary: Signal, conf: Seq<Signal>) -> int {
    clamp_i64(tdiv(primary.strength * 6, 10) + tdiv(avg_strength(conf) * 4, 10))
}

/// One composite trading decision.
#[derive(Debug)]
pub struct CompositeSignal {
    /// The strongest input signal; it drives the decision.
    pub primary: Signal,
    /// Same-direction signals that corroborate the primary, in input order.
    pub confirming: Vec<Signal>,
    /// Blended strength at fixed-point scale.
    pub overall_strength: i64,
    /// Always the primary's direction.
    pub direction: Side,
    /// Blended confidence at fixed-point scale.
    pub confidence: i64,
    pub timestamp_ms: u64,
}

impl CompositeSignal {
    /// Strong enough to act on: enough confirming signals and at least 0.5
    /// confidence.
    pub fn is_tradeable(&self, min_confirming: usize) -> (r: bool)
        ensures
            r == (self.confirming@.len() >= min_confirming && self.confidence as int
                >= half_scale()),
    {
        self.confirming.len() >= min_confirming && self.confidence >= SCALE / 2
    }
}

/// Stateless combiner of detector signals.
#[derive(Debug)]
pub struct SignalAggregator {
    primary_threshold: i64,
    confirming_threshold: i64,
    min_confirming: usize,
}

impl SignalAggregator {
    /// Minimum absolute strength of the primary signal.
    pub closed spec fn spec_primary_threshold(self) -> int {
        self.primary_threshold as int
    }

    /// Minimum absolute strength of a confirming signal.
    pub closed spec fn spec_confirming_threshold(self) -> int {
        self.confirming_threshold as int
    }

    /// Minimum number of confirming signals.
    pub closed spec fn spec_min_confirming(self) -> int {
        self.min_confirming as int
    }

    /// Builds an aggregator with the given thresholds.
    pub fn new(primary_threshold: i64, confirming_threshold: i64, min_confirming: usize) -> (r:
        SignalAggregator)
        requires
            min_confirming <= 0x1000_0000_0000_0000,
        ensures
            r.spec_primary_threshold() == primary_threshold as int,
            r.spec_confirming_threshold() == confirming_threshold as int,
            r.spec_min_confirming() == min_confirming as int,
    {
        SignalAggregator { primary_threshold, confirming_threshold, min_confirming }
    }

    /// Combines a batch of signals, taking the current time for the
    /// composite's timestamp. The primary is the last signal of maximal
    /// absolute strength; nothing is emitted when the batch is empty, the
    /// primary is below the primary threshold, or fewer than
    /// `min_confirming` signals confirm it.
    pub fn aggregate_at(&self, signals: Vec<Signal>, now_ms: u64) -> (r: Option<CompositeSignal>)
        requires
            signals@.len() < 0x8000_0000_0000_0000,
        ensures
            ({
                let s = signals@;
                if s.len() == 0 {
                    r is None
                } else {
                    let p = s[last_max_idx(s)];
                    let cseq = confirming_of(s, p, self.spec_confirming_threshold());
                    &&& (r is None <==> (abs_i64(p.strength) < self.spec_primary_threshold()
                        || cseq.len() < self.spec_min_confirming()))
                    &&& (r matches Some(c) ==> {
                        &&& c.primary == p
                        &&& c.confirming@ == cseq
                        &&& c.direction == p.direction
                        &&& c.overall_strength == composite_strength(p, cseq)
                        &&& c.confidence == composite_confidence(
                            p,
                            cseq,
                            self.spec_min_confirming(),
                        )
                        &&& c.timestamp_ms == now_ms
                    })
                }
            }),
    {
        let ghost s = signals@;
        let n = signals.len();
        if n == 0 {
            return None;
        }

        // the last signal of maximal absolute strength becomes the primary
        let mut best: usize = 0;
        let mut i: usize = 1;
        proof {
            assert(s.take(1).len() == 1);
            assert(last_max_idx(s.take(1)) == 0);
        }
        while i < n
            invariant
                1 <= i <= n,
                n == s.len(),
                s == signals@,
                0 <= best < i,
                best as int == last_max_idx(s.take(i as int)),
            decreases n - i,
        {
            proof {
                let tk1 = s.take(i + 1);
                assert(tk1.drop_last() =~= s.take(i as int));
                assert(tk1.last() == s[i as int]);
                assert(tk1.len() == i + 1);
                assert(s.take(i as int)[best as int] == s[best as int]);
            }
            if signals[i].abs_strength() >= signals[best].abs_strength() {
                best = i;
            }
            i = i + 1;
        }
        proof {
            assert(s.take(n as int) =~= s);
        }

        let p_abs: u64 = signals[best].abs_strength();
        if (p_abs as i128) < (self.primary_threshold as i128) {
            return None;
        }

        // the primary's identity, captured before the batch is taken apart
        let p_dir: Side = signals[best].direction;
        let p_ts: u64 = signals[best].timestamp_ms;
        let p_strength: i64 = signals[best].strength;
        let p_conf: i64 = signals[best].confidence;
        let ghost p = s[best as int];

        // count the confirming signals and sum their fields
        let ct = self.confirming_threshold;
        let mut cnt: usize = 0;
        let mut str_sum: i128 = 0;
        let mut conf_sum: i128 = 0;
        let mut j: usize = 0;
        proof {
            assert(s.take(0) =~= Seq::<Signal>::empty());
            assert(confirming_of(s.take(0), p, ct as int) =~= Seq::<Signal>::empty());
        }
        while j < n
            invariant
                0 <= j <= n,
                n == s.len(),
                s == signals@,
                s.len() < 0x8000_0000_0000_0000,
                0 <= best < n,
                p == s[best as int],
                p_dir == p.direction,
                p_ts == p.timestamp_ms,
                ct == self.confirming_threshold,
                cnt == confirming_of(s.take(j as int), p, ct as int).len(),
                cnt <= j,
                str_sum == sum_strength(confirming_of(s.take(j as int), p, ct as int)),
                conf_sum == sum_conf(confirming_of(s.take(j as int), p, ct as int)),
                -((cnt as int) * 0x8000_0000_0000_0000) <= str_sum <= (cnt as int)
                    * 0x8000_0000_0000_0000,
                -((cnt as int) * 0x8000_0000_0000_0000) <= conf_sum <= (cnt as int)
                    * 0x8000_0000_0000_0000,
            decreases n - j,
        {
            proof {
                lemma_confirming_step(s, p, ct as int, j as int);
            }
            let x_dir: Side = signals[j].direction;
            let x_ts: u64 = signals[j].timestamp_ms;
            let x_abs: u64 = signals[j].abs_strength();
            let is_conf: bool = matches_side(x_dir, p_dir) && (x_abs as i128) >= (ct as i128)
                && x_ts != p_ts;
            if is_conf {
                proof {
                    let cs = confirming_of(s.take(j as int), p, ct as int);
                    assert(cs.push(s[j as int]).drop_last() =~= cs);
                    assert((cnt as int) * 0x8000_0000_0000_0000 + 0x8000_0000_0000_0000 == ((
                    cnt + 1) as int) * 0x8000_0000_0000_0000) by (nonlinear_arith);
                    assert(((cnt + 1) as int) * 0x8000_0000_0000_0000 <= 0x8000_0000_0000_0000
                        * 0x8000_0000_0000_0000) by (nonlinear_arith)
                        requires
                            0 <= (cnt + 1) as int <= 0x8000_0000_0000_0000,
                    ;
                }
                cnt = cnt + 1;
                str_sum = str_sum + (signals[j].strength as i128);
                conf_sum = conf_sum + (signals[j].confidence as i128);
            }
            j = j + 1;
        }
        proof {
            assert(s.take(n as int) =~= s);
        }
        let ghost cseq = confirming_of(s, p, ct as int);

        if cnt < self.min_confirming {
            return None;
        }

        // blended confidence
        let t1: i128 = tdiv_i128((p_conf as i128) * 4, 10);
        let cf_raw: i128 = (cnt as i128) * (SCALE as i128) / ((self.min_confirming as i128) + 2);
        proof {
            vstd::arithmetic::div_mod::lemma_div_pos_is_pos(
                (cnt as int) * scale(),
                self.spec_min_confirming() + 2,
            );
            assert((cnt as int) * scale() >= 0) by (nonlinear_arith)
                requires
                    cnt as int >= 0,
            ;
        }
        let cf: i128 = if cf_raw > SCALE as i128 {
            SCALE as i128
        } else {
            cf_raw
        };
        let t2: i128 = cf * 3 / 10;
        proof {
            crate::num::lemma_tdiv_bound((p_conf as int) * 4, 10, 0x8000_0000_0000_0000);
            vstd::arithmetic::div_mod::lemma_div_pos_is_pos(cf as int * 3, 10);
            vstd::arithmetic::div_mod::lemma_div_is_ordered(cf as int * 3, scale() * 3, 10);
            if cnt > 0 {
                crate::num::lemma_tdiv_bound(conf_sum as int, cnt as int, 0x8000_0000_0000_0000);
            }
        }
        let avg_c: i128 = if cnt == 0 {
            0
        } else {
            tdiv_i128(conf_sum, cnt as i128)
        };
        proof {
            assert(avg_c as int == avg_conf(cseq));
            crate::num::lemma_tdiv_bound(avg_c as int * 3, 10, 0x8000_0000_0000_0000);
        }
        let t3: i128 = tdiv_i128(avg_c * 3, 10);
        let craw: i128 = t1 + t2 + t3;
        let confidence: i64 = if craw > SCALE as i128 {
            SCALE
        } else {
            clamp_to_i64(craw)
        };
        proof {
            assert(confidence as int == composite_confidence(
                p,
                cseq,
                self.spec_min_confirming(),
            )) by {
                assert(avg_c as int == avg_conf(cseq));
                assert(-0x8000_0000_0000_0000 <= t1 <= 0x8000_0000_0000_0000);
                assert(-0x8000_0000_0000_0000 <= t3 <= 0x8000_0000_0000_0000);
                assert(0 <= t2 <= scale());
                assert(craw <= SCALE as i128 ==> clamp_i64(craw as int) == craw as int);
            }
        }

        // blended strength
        proof {
            crate::num::lemma_tdiv_bound((p_strength as int) * 6, 10, 0x8000_0000_0000_0000);
            if cnt > 0 {
                crate::num::lemma_tdiv_bound(str_sum as int, cnt as int, 0x8000_0000_0000_0000);
            }
        }
        let s1: i128 = tdiv_i128((p_strength as i128) * 6, 10);
        let avg_s: i128 = if cnt == 0 {
            0
        } else {
            tdiv_i128(str_sum, cnt as i128)
        };
        proof {
            assert(avg_s as int == avg_strength(cseq));
            crate::num::lemma_tdiv_bound(avg_s as int * 4, 10, 0x8000_0000_0000_0000);
        }
        let s2: i128 = tdiv_i128(avg_s * 4, 10);
        let overall_strength: i64 = clamp_to_i64(s1 + s2);
        proof {
            assert(overall_strength as int == composite_strength(p, cseq));
        }

        // take the batch apart: move the primary and the confirming signals
        // out, in order, without copying
        let mut rest = signals;
        let mut primary_opt: Option<Signal> = None;
        let mut confirming: Vec<Signal> = Vec::new();
        let mut k: usize = 0;
        proof {
            assert(rest@ =~= s.skip(0));
            assert(confirming_of(s.take(0), p, ct as int) =~= Seq::<Signal>::empty());
        }
        while k < n
            invariant
                0 <= k <= n,
                n == s.len(),
                rest@ == s.skip(k as int),
                0 <= best < n,
                p == s[best as int],
                p_dir == p.direction,
                p_ts == p.timestamp_ms,
                ct == self.confirming_threshold,
                confirming@ == confirming_of(s.take(k as int), p, ct as int),
                primary_opt == (if k > best {
                    Some(p)
                } else {
                    Option::<Signal>::None
                }),
            decreases n - k,
        {
            proof {
                assert(s.skip(k as int)[0] == s[k as int]);
                assert(s.skip(k as int).remove(0) =~= s.skip(k as int + 1));
                lemma_confirming_step(s, p, ct as int, k as int);
            }
            let x = rest.remove(0);
            if k == best {
                primary_opt = Some(x);
            } else {
                let x_abs = x.abs_strength();
                let is_conf: bool = matches_side(x.direction, p_dir) && (x_abs as i128) >= (ct
                    as i128) && x.timestamp_ms != p_ts;
                if is_conf {
                    confirming.push(x);
                } else {
                    proof {
                        assert(!is_confirming(s[k as int], p, ct as int));
                    }
                }
            }
            proof {
                if k == best {
                    // the primary never confirms itself: its timestamp is its own
                    assert(!is_confirming(s[k as int], p, ct as int));
                }
            }
            k = k + 1;
        }
        proof {
            assert(s.take(n as int) =~= s);
        }

        let primary = match primary_opt {
            Some(x) => x,
            None => {
                proof {
                    assert(n > best);
                }
                return None;
            },
        };

        Some(
            CompositeSignal {
                direction: p_dir,
                overall_strength,
                confidence,
                timestamp_ms: now_ms,
                primary,
                confirming,
            },
        )
    }

    /// Combines a batch against the wall clock; apart from the composite's
    /// timestamp, which carries whatever the clock returned, this behaves
    /// exactly like [`Self::aggregate_at`].
    pub fn aggregate(&self, signals: Vec<Signal>) -> (r: Option<CompositeSignal>)
        requires
            signals@.len() < 0x8000_0000_0000_0000,
        ensures
            ({
                let s = signals@;
                if s.len() == 0 {
                    r is None
                } else {
                    let p = s[last_max_idx(s)];
                    let cseq = confirming_of(s, p, self.spec_confirming_threshold());
                    &&& (r is None <==> (abs_i64(p.strength) < self.spec_primary_threshold()
                        || cseq.len() < self.spec_min_confirming()))
                    &&& (r matches Some(c) ==> {
                        &&& c.primary == p
                        &&& c.confirming@ == cseq
                        &&& c.direction == p.direction
                        &&& c.overall_strength == composite_strength(p, cseq)
                        &&& c.confidence == composite_confidence(
                            p,
                            cseq,
                            self.spec_min_confirming(),
                        )
                    })
                }
            }),
    {
        let now = crate::clock::now_millis();
        self.aggregate_at(signals, now)
    }
}

/// Side equality as a plain function.
fn matches_side(a: Side, b: Side) -> (r: bool)
    ensures
        r == (a == b),
{
    match (a, b) {
        (Side::Buy, Side::Buy) => true,
        (Side::Sell, Side::Sell) => true,
        _ => false,
    }
}

} // verus!
