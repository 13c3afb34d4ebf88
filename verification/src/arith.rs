//! Fixed-point arithmetic for label values.
//!
//! A label value is an `i64` counting steps of `LABEL_UNIT` per whole unit.
//! Derived quantities (means, rates) are quotients rounded to the nearest
//! step, half away from zero; sums and differences saturate at the `i64`
//! range instead of wrapping.

use vstd::prelude::*;

verus! {

/// Number of fixed-point steps in one whole unit of a label value.
pub const LABEL_UNIT: i64 = 1_000_000;

/// Quotient of `a / b` rounded to the nearest integer, half away from zero.
/// Meaningful only for a positive divisor.
pub open spec fn div_round(a: int, b: int) -> int
    recommends
        b > 0,
{
    if a >= 0 {
        (2 * a + b) / (2 * b)
    } else {
        -((2 * (-a) + b) / (2 * b))
    }
}

/// `x` clamped to the `i64` range.
pub open spec fn clamp_i64(x: int) -> int {
    if x > i64::MAX {
        i64::MAX as int
    } else if x < i64::MIN {
        i64::MIN as int
    } else {
        x
    }
}

/// Difference `a - b` saturated at the `i64` range.
pub open spec fn sat_sub(a: int, b: int) -> int {
    clamp_i64(a - b)
}

/// Sum `a + b` saturated at `u64::MAX`.
pub open spec fn sat_add_u64(a: int, b: int) -> int {
    if a + b > u64::MAX {
        u64::MAX as int
    } else {
        a + b
    }
}

/// The rounded quotient is no farther from zero than the dividend, for any
/// divisor of at least one.
pub proof fn lemma_div_round_bounds(a: int, b: int)
    requires
        b >= 1,
        a >= 0,
    ensures
        0 <= (2 * a + b) / (2 * b) <= a,
{
    let d = 2 * b;
    let n = 2 * a + b;
    let q = n / d;
    vstd::arithmetic::div_mod::lemma_fundamental_div_mod(n, d);
    vstd::arithmetic::div_mod::lemma_mod_bound(n, d);
    assert(d * q <= n);
    assert(n < d * (a + 1)) by (nonlinear_arith)
        requires
            b >= 1,
            a >= 0,
            n == 2 * a + b,
            d == 2 * b,
    ;
    assert(q < a + 1) by (nonlinear_arith)
        requires
            d * q < d * (a + 1),
            d > 0,
    ;
    vstd::arithmetic::div_mod::lemma_div_pos_is_pos(n, d);
}

/// The rounded quotient of a non-negative dividend, written with the
/// truncating quotient and remainder the machine gives.
pub proof fn lemma_div_round_rem(a: int, b: int)
    requires
        a >= 0,
        b >= 1,
    ensures
        div_round(a, b) == a / b + if 2 * (a % b) >= b {
            1int
        } else {
            0int
        },
{
    let q = a / b;
    let r = a % b;
    vstd::arithmetic::div_mod::lemma_fundamental_div_mod(a, b);
    vstd::arithmetic::div_mod::lemma_mod_bound(a, b);
    assert(2 * a + b == (2 * b) * q + (2 * r + b)) by (nonlinear_arith)
        requires
            a == b * q + r,
    ;
    if 2 * r >= b {
        assert(2 * a + b == (2 * b) * (q + 1) + (2 * r - b)) by (nonlinear_arith)
            requires
                2 * a + b == (2 * b) * q + (2 * r + b),
        ;
        vstd::arithmetic::div_mod::lemma_fundamental_div_mod_converse(
            2 * a + b,
            2 * b,
            q + 1,
            2 * r - b,
        );
    } else {
        vstd::arithmetic::div_mod::lemma_fundamental_div_mod_converse(2 * a + b, 2 * b, q, 2 * r + b);
    }
}

/// Rounded division of fixed-point values by a positive divisor.
pub fn div_round_i64(a: i64, b: i64) -> (r: i64)
    requires
        b > 0,
    ensures
        r == div_round(a as int, b as int),
{
    let d: i128 = 2 * (b as i128);
    if a >= 0 {
        let n: i128 = 2 * (a as i128) + (b as i128);
        let q: i128 = n / d;
        proof {
            lemma_div_round_bounds(a as int, b as int);
        }
        q as i64
    } else {
        let n: i128 = 2 * (-(a as i128)) + (b as i128);
        let q: i128 = n / d;
        proof {
            lemma_div_round_bounds(-(a as int), b as int);
        }
        (-q) as i64
    }
}

/// The rounded quotient of a non-negative dividend does not exceed any
/// `hi` whose multiple bounds the dividend.
pub proof fn lemma_div_round_upper_nonneg(s: int, w: int, hi: int)
    requires
        w >= 1,
        s >= 0,
        s <= w * hi,
    ensures
        div_round(s, w) <= hi,
{
    let q = s / w;
    let r = s % w;
    vstd::arithmetic::div_mod::lemma_fundamental_div_mod(s, w);
    vstd::arithmetic::div_mod::lemma_mod_bound(s, w);
    lemma_div_round_rem(s, w);
    assert(q <= hi) by (nonlinear_arith)
        requires
            s == w * q + r,
            0 <= r < w,
            s <= w * hi,
            w >= 1,
    ;
    if 2 * r >= w {
        assert(q < hi) by (nonlinear_arith)
            requires
                s == w * q + r,
                0 < r < w,
                s <= w * hi,
                w >= 1,
                q <= hi,
        ;
    }
}

/// The rounded quotient of a non-negative dividend reaches any `lo` whose
/// multiple the dividend reaches.
pub proof fn lemma_div_round_lower_nonneg(s: int, w: int, lo: int)
    requires
        w >= 1,
        s >= 0,
        w * lo <= s,
    ensures
        div_round(s, w) >= lo,
{
    let q = s / w;
    let r = s % w;
    vstd::arithmetic::div_mod::lemma_fundamental_div_mod(s, w);
    vstd::arithmetic::div_mod::lemma_mod_bound(s, w);
    lemma_div_round_rem(s, w);
    assert(q >= lo) by (nonlinear_arith)
        requires
            s == w * q + r,
            0 <= r < w,
            w * lo <= s,
            w >= 1,
    ;
}

/// A value between `w * lo` and `w * hi` has its rounded quotient by `w`
/// between `lo` and `hi`.
pub proof fn lemma_div_round_in_range(s: int, w: int, lo: int, hi: int)
    requires
        w >= 1,
        w * lo <= s <= w * hi,
    ensures
        lo <= div_round(s, w) <= hi,
{
    if s >= 0 {
        lemma_div_round_upper_nonneg(s, w, hi);
        if lo <= 0 {
            vstd::arithmetic::div_mod::lemma_div_pos_is_pos(2 * s + w, 2 * w);
        } else {
            lemma_div_round_lower_nonneg(s, w, lo);
        }
    } else {
        assert(div_round(s, w) == -div_round(-s, w));
        assert(-s <= w * (-lo)) by (nonlinear_arith)
            requires
                w * lo <= s,
        ;
        lemma_div_round_upper_nonneg(-s, w, -lo);
        if hi >= 0 {
            vstd::arithmetic::div_mod::lemma_div_pos_is_pos(2 * (-s) + w, 2 * w);
        } else {
            assert(w * (-hi) <= -s) by (nonlinear_arith)
                requires
                    s <= w * hi,
            ;
            lemma_div_round_lower_nonneg(-s, w, -hi);
        }
    }
}

/// Rounded division for wide values, such as a window's running sum.
pub fn div_round_i128(a: i128, b: i128) -> (r: i128)
    requires
        1 <= b <= 0x1_0000_0000_0000_0000i128,
        a > i128::MIN,
    ensures
        r == div_round(a as int, b as int),
{
    if a >= 0 {
        let m = a as u128;
        let q = m / (b as u128);
        let rem = m % (b as u128);
        proof {
            let ai = a as int;
            let bi = b as int;
            let qi = ai / bi;
            let ri = ai % bi;
            lemma_div_round_rem(ai, bi);
            vstd::arithmetic::div_mod::lemma_fundamental_div_mod(ai, bi);
            vstd::arithmetic::div_mod::lemma_mod_bound(ai, bi);
            vstd::arithmetic::div_mod::lemma_div_pos_is_pos(ai, bi);
            if 2 * ri >= bi {
                assert(qi < ai) by (nonlinear_arith)
                    requires
                        ai == bi * qi + ri,
                        0 < ri,
                        bi >= 1,
                        qi >= 0,
                ;
            }
        }
        if 2 * rem >= b as u128 {
            (q + 1) as i128
        } else {
            q as i128
        }
    } else {
        let m = (-a) as u128;
        let q = m / (b as u128);
        let rem = m % (b as u128);
        proof {
            let ai = -(a as int);
            let bi = b as int;
            let qi = ai / bi;
            let ri = ai % bi;
            lemma_div_round_rem(ai, bi);
            vstd::arithmetic::div_mod::lemma_fundamental_div_mod(ai, bi);
            vstd::arithmetic::div_mod::lemma_mod_bound(ai, bi);
            vstd::arithmetic::div_mod::lemma_div_pos_is_pos(ai, bi);
            if 2 * ri >= bi {
                assert(qi < ai) by (nonlinear_arith)
                    requires
                        ai == bi * qi + ri,
                        0 < ri,
                        bi >= 1,
                        qi >= 0,
                ;
            }
        }
        if 2 * rem >= b as u128 {
            -((q + 1) as i128)
        } else {
            -(q as i128)
        }
    }
}

/// Saturating difference of fixed-point values.
pub fn sat_sub_i64(a: i64, b: i64) -> (r: i64)
    ensures
        r == sat_sub(a as int, b as int),
{
    let d: i128 = (a as i128) - (b as i128);
    if d > i64::MAX as i128 {
        i64::MAX
    } else if d < i64::MIN as i128 {
        i64::MIN
    } else {
        d as i64
    }
}

/// Saturating sum of occurrence counts.
pub fn sat_add_u64_exec(a: u64, b: u64) -> (r: u64)
    ensures
        r == sat_add_u64(a as int, b as int),
{
    if a > u64::MAX - b {
        u64::MAX
    } else {
        a + b
    }
}

} // verus!
