//! Fixed-point arithmetic helpers shared by the whole crate.
//!
//! A fixed-point value is an `i64` (or `i128` for wide intermediates) holding
//! the real value times [`SCALE`], so the resolution is 1/10000.

use vstd::prelude::*;

verus! {

/// Every fixed-point value in this crate is the real value times this factor.
pub const SCALE: i64 = 10_000;

/// Spec mirror of [`SCALE`] as an `int`.
pub open spec fn scale() -> int {
    10_000
}

/// Clamps a wide intermediate into the `i64` range.
pub open spec fn clamp_i64(x: int) -> int {
    if x > i64::MAX as int {
        i64::MAX as int
    } else if x < i64::MIN as int {
        i64::MIN as int
    } else {
        x
    }
}

/// Clamps a wide intermediate into the `i64` range.
pub fn clamp_to_i64(x: i128) -> (r: i64)
    ensures
        r as int == clamp_i64(x as int),
{
    if x > i64::MAX as i128 {
        i64::MAX
    } else if x < i64::MIN as i128 {
        i64::MIN
    } else {
        x as i64
    }
}

/// `i64` addition that saturates at the representable bounds instead of
/// overflowing.
pub fn sat_add_i64(a: i64, b: i64) -> (r: i64)
    ensures
        r as int == clamp_i64(a + b),
{
    clamp_to_i64(a as i128 + b as i128)
}


/// Division truncating toward zero (for a positive divisor), as the
/// fixed-point formulas use on signed intermediates.
pub open spec fn tdiv(a: int, b: int) -> int {
    if a >= 0 {
        a / b
    } else {
        -((-a) / b)
    }
}

/// Clamps an unbounded intermediate into the `i128` range.
pub open spec fn clamp_i128(x: int) -> int {
    if x > i128::MAX as int {
        i128::MAX as int
    } else if x < i128::MIN as int {
        i128::MIN as int
    } else {
        x
    }
}

/// `i128` addition that saturates at the representable bounds.
pub fn sat_add_i128(a: i128, b: i128) -> (r: i128)
    ensures
        r as int == clamp_i128(a + b),
{
    if a >= 0 && b > i128::MAX - a {
        i128::MAX
    } else if a < 0 && b < i128::MIN - a {
        i128::MIN
    } else {
        a + b
    }
}

/// Division truncating toward zero; the quotient's magnitude never exceeds
/// the dividend's.
pub fn tdiv_i128(a: i128, b: i128) -> (r: i128)
    requires
        b >= 1,
        -170_141_183_460_469_231_731_687_303_715_884_105_727 <= a,
    ensures
        r as int == tdiv(a as int, b as int),
        a >= 0 ==> 0 <= r <= a,
        a < 0 ==> a <= r <= 0,
{
    if a >= 0 {
        proof {
            vstd::arithmetic::div_mod::lemma_div_pos_is_pos(a as int, b as int);
            vstd::arithmetic::div_mod::lemma_div_is_ordered_by_denominator(a as int, 1, b as int);
            vstd::arithmetic::div_mod::lemma_div_basics_2(a as int);
        }
        a / b
    } else {
        let m = -a;
        proof {
            vstd::arithmetic::div_mod::lemma_div_pos_is_pos(m as int, b as int);
            vstd::arithmetic::div_mod::lemma_div_is_ordered_by_denominator(m as int, 1, b as int);
            vstd::arithmetic::div_mod::lemma_div_basics_2(m as int);
        }
        -(m / b)
    }
}

/// `r` is the floor of the square root of `x`.
pub open spec fn is_floor_sqrt(x: int, r: int) -> bool {
    0 <= r && r * r <= x && x < (r + 1) * (r + 1)
}

/// The floor of the square root of a non-negative integer.
pub open spec fn floor_sqrt(x: int) -> int {
    choose|r: int| is_floor_sqrt(x, r)
}

/// Every non-negative integer has a floor square root.
pub proof fn lemma_floor_sqrt_exists(x: int)
    requires
        x >= 0,
    ensures
        is_floor_sqrt(x, floor_sqrt(x)),
    decreases x,
{
    if x == 0 {
        assert(is_floor_sqrt(0, 0));
    } else {
        lemma_floor_sqrt_exists(x - 1);
        let r = floor_sqrt(x - 1);
        if (r + 1) * (r + 1) <= x {
            assert(is_floor_sqrt(x, r + 1)) by (nonlinear_arith)
                requires
                    is_floor_sqrt(x - 1, r),
                    (r + 1) * (r + 1) <= x,
            ;
        } else {
            assert(is_floor_sqrt(x, r));
        }
    }
    assert(exists|r: int| is_floor_sqrt(x, r));
}

/// The floor square root is unique.
pub proof fn lemma_floor_sqrt_unique(x: int, a: int, b: int)
    requires
        is_floor_sqrt(x, a),
        is_floor_sqrt(x, b),
    ensures
        a == b,
{
    assert(a == b) by (nonlinear_arith)
        requires
            0 <= a && a * a <= x && x < (a + 1) * (a + 1),
            0 <= b && b * b <= x && x < (b + 1) * (b + 1),
    ;
}

/// Floor square root by bisection.
pub fn isqrt_u128(x: u128) -> (r: u64)
    ensures
        r as int == floor_sqrt(x as int),
        is_floor_sqrt(x as int, r as int),
{
    let mut lo: u128 = 0;
    let mut hi: u128 = 18_446_744_073_709_551_616;  // 2^64
    proof {
        assert((18_446_744_073_709_551_616 as int) * (18_446_744_073_709_551_616 as int) > u128::MAX
            as int) by (nonlinear_arith);
    }
    while lo + 1 < hi
        invariant
            0 <= lo < hi <= 18_446_744_073_709_551_616,
            lo * lo <= x,
            (x as int) < hi * hi,
        decreases hi - lo,
    {
        let mid = lo + (hi - lo) / 2;
        proof {
            assert(lo < mid < hi);
            assert(mid * mid < 340_282_366_920_938_463_463_374_607_431_768_211_455) by (nonlinear_arith)
                requires
                    0 <= mid < 18_446_744_073_709_551_616,
            ;
        }
        if mid * mid <= x {
            lo = mid;
        } else {
            hi = mid;
        }
    }
    proof {
        assert(hi == lo + 1);
        assert(is_floor_sqrt(x as int, lo as int));
        lemma_floor_sqrt_exists(x as int);
        lemma_floor_sqrt_unique(x as int, lo as int, floor_sqrt(x as int));
        assert(lo * lo <= x);
        assert(lo < 18_446_744_073_709_551_616) by (nonlinear_arith)
            requires
                lo * lo <= (x as int),
                (x as int) <= 340_282_366_920_938_463_463_374_607_431_768_211_455,
                0 <= lo,
                (x as int) < (lo + 1) * (lo + 1),
                hi <= 18_446_744_073_709_551_616,
                lo < hi,
        ;
    }
    lo as u64
}


/// Quotient bound for truncating division: if the dividend's magnitude is
/// at most `b * m`, the quotient's magnitude is at most `m`.
pub proof fn lemma_tdiv_bound(a: int, b: int, m: int)
    requires
        b >= 1,
        m >= 0,
        -(b * m) <= a <= b * m,
    ensures
        -m <= tdiv(a, b) <= m,
{
    if a >= 0 {
        vstd::arithmetic::div_mod::lemma_div_pos_is_pos(a, b);
        vstd::arithmetic::div_mod::lemma_div_is_ordered(a, b * m, b);
        vstd::arithmetic::div_mod::lemma_div_multiples_vanish(m, b);
    } else {
        vstd::arithmetic::div_mod::lemma_div_pos_is_pos(-a, b);
        vstd::arithmetic::div_mod::lemma_div_is_ordered(-a, b * m, b);
        vstd::arithmetic::div_mod::lemma_div_multiples_vanish(m, b);
    }
}

/// The floor square root of zero is zero.
pub proof fn lemma_floor_sqrt_zero()
    ensures
        floor_sqrt(0) == 0,
{
    assert(is_floor_sqrt(0, 0)) by (nonlinear_arith);
    lemma_floor_sqrt_exists(0);
    lemma_floor_sqrt_unique(0, 0, floor_sqrt(0));
}

} // verus!
