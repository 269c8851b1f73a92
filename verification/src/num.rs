//! Integer numeric kernel: square root and truncating scaled division.
//!
//! These replace the floating-point `sqrt` and `/` of a conventional
//! geometry kernel with exactly specified fixed-point operations.

use vstd::arithmetic::div_mod::{
    lemma_div_is_ordered, lemma_div_multiples_vanish, lemma_div_pos_is_pos,
};
use vstd::prelude::*;

verus! {

/// Integer square root, characterised recursively: the largest `r`
/// with `r * r <= x`.
pub open spec fn isqrt_spec(x: int) -> int
    decreases x,
{
    if x <= 0 {
        0
    } else {
        let p = isqrt_spec(x - 1);
        if (p + 1) * (p + 1) <= x {
            p + 1
        } else {
            p
        }
    }
}

pub proof fn lemma_isqrt_spec_bounds(x: int)
    requires
        x >= 0,
    ensures
        0 <= isqrt_spec(x),
        isqrt_spec(x) * isqrt_spec(x) <= x,
        x < (isqrt_spec(x) + 1) * (isqrt_spec(x) + 1),
    decreases x,
{
    if x == 0 {
    } else {
        lemma_isqrt_spec_bounds(x - 1);
        let p = isqrt_spec(x - 1);
        if (p + 1) * (p + 1) <= x {
            assert(x <= (p + 1) * (p + 1)) by {
                assert(x - 1 < (p + 1) * (p + 1));
            }
            assert((p + 1) * (p + 1) < (p + 2) * (p + 2)) by (nonlinear_arith)
                requires
                    p >= 0,
            ;
        }
    }
}

pub proof fn lemma_isqrt_unique(x: int, r: int)
    requires
        x >= 0,
        r >= 0,
        r * r <= x,
        x < (r + 1) * (r + 1),
    ensures
        r == isqrt_spec(x),
{
    lemma_isqrt_spec_bounds(x);
    let s = isqrt_spec(x);
    assert(r == s) by (nonlinear_arith)
        requires
            r >= 0,
            s >= 0,
            r * r <= x,
            x < (r + 1) * (r + 1),
            s * s <= x,
            x < (s + 1) * (s + 1),
    ;
}

/// Binary-search integer square root.
pub fn isqrt(x: u128) -> (r: u64)
    ensures
        r == isqrt_spec(x as int),
{
    let mut lo: u128 = 0;
    let mut hi: u128 = 0x1_0000_0000_0000_0000;
    proof {
        assert((0x1_0000_0000_0000_0000 as int) * (0x1_0000_0000_0000_0000 as int)
            == 0x1_0000_0000_0000_0000_0000_0000_0000_0000 as int) by (nonlinear_arith);
    }
    while lo + 1 < hi
        invariant
            0 <= lo < hi <= 0x1_0000_0000_0000_0000,
            (lo as int) * (lo as int) <= x as int,
            (x as int) < (hi as int) * (hi as int),
        decreases hi - lo,
    {
        let mid = lo + (hi - lo) / 2;
        proof {
            assert(lo < mid < hi);
            assert((mid as int) * (mid as int) <= (0xFFFF_FFFF_FFFF_FFFF as int)
                * (0xFFFF_FFFF_FFFF_FFFF as int)) by (nonlinear_arith)
                requires
                    0 <= mid as int <= 0xFFFF_FFFF_FFFF_FFFF as int,
            ;
            assert((0xFFFF_FFFF_FFFF_FFFF as int) * (0xFFFF_FFFF_FFFF_FFFF as int)
                < 0x1_0000_0000_0000_0000_0000_0000_0000_0000 as int) by (nonlinear_arith);
        }
        let sq = mid * mid;
        if sq <= x {
            lo = mid;
        } else {
            hi = mid;
        }
    }
    proof {
        lemma_isqrt_unique(x as int, lo as int);
    }
    lo as u64
}

/// `a * m / den`, rounded toward zero; the rounding a fixed-point
/// kernel uses where a real kernel would divide.
pub open spec fn mul_div_trunc_spec(a: int, m: int, den: int) -> int {
    if a >= 0 {
        (a * m) / den
    } else {
        -(((-a) * m) / den)
    }
}

/// If `0 <= x <= y * d` then `x / d <= y`.
pub proof fn lemma_div_le_bound(x: int, y: int, d: int)
    requires
        0 <= x,
        0 < d,
        x <= y * d,
    ensures
        x / d <= y,
        0 <= x / d,
{
    lemma_div_is_ordered(x, y * d, d);
    lemma_div_multiples_vanish(y, d);
    assert(y * d == d * y) by (nonlinear_arith);
    lemma_div_pos_is_pos(x, d);
}

pub fn mul_div_trunc(a: i64, m: i64, den: i64) -> (r: i64)
    requires
        0 <= m,
        0 < den,
        -0x4000_0000_0000_0000 <= a <= 0x4000_0000_0000_0000,
        mul_div_trunc_spec(a as int, m as int, den as int) <= i64::MAX as int,
        -(i64::MAX as int) <= mul_div_trunc_spec(a as int, m as int, den as int),
    ensures
        r == mul_div_trunc_spec(a as int, m as int, den as int),
{
    let neg = a < 0;
    let aa: u128 = if neg {
        (-a) as u128
    } else {
        a as u128
    };
    proof {
        assert((aa as int) * (m as int) <= (0x4000_0000_0000_0000 as int)
            * (0x8000_0000_0000_0000 as int)) by (nonlinear_arith)
            requires
                0 <= aa as int <= 0x4000_0000_0000_0000 as int,
                0 <= m as int <= 0x8000_0000_0000_0000 as int,
        ;
        assert((0x4000_0000_0000_0000 as int) * (0x8000_0000_0000_0000 as int)
            < u128::MAX as int) by (nonlinear_arith);
    }
    let q: u128 = (aa * (m as u128)) / (den as u128);
    if neg {
        proof {
            assert(q as int == ((-(a as int)) * (m as int)) / (den as int));
        }
        -(q as i64)
    } else {
        proof {
            assert(q as int == ((a as int) * (m as int)) / (den as int));
        }
        q as i64
    }
}

/// `a * m / den`, rounded to the nearest integer, halves away from zero.
pub open spec fn mul_div_round_spec(a: int, m: int, den: int) -> int {
    if a >= 0 {
        (a * m + den / 2) / den
    } else {
        -(((-a) * m + den / 2) / den)
    }
}

pub fn mul_div_round(a: i64, m: i64, den: i64) -> (r: i64)
    requires
        0 <= m,
        0 < den,
        -0x4000_0000_0000_0000 <= a <= 0x4000_0000_0000_0000,
        mul_div_round_spec(a as int, m as int, den as int) <= i64::MAX as int,
        -(i64::MAX as int) <= mul_div_round_spec(a as int, m as int, den as int),
    ensures
        r == mul_div_round_spec(a as int, m as int, den as int),
{
    let neg = a < 0;
    let aa: u128 = if neg {
        (-a) as u128
    } else {
        a as u128
    };
    proof {
        assert((aa as int) * (m as int) <= (0x4000_0000_0000_0000 as int)
            * (0x8000_0000_0000_0000 as int)) by (nonlinear_arith)
            requires
                0 <= aa as int <= 0x4000_0000_0000_0000 as int,
                0 <= m as int <= 0x8000_0000_0000_0000 as int,
        ;
        assert((0x4000_0000_0000_0000 as int) * (0x8000_0000_0000_0000 as int)
            + (0x8000_0000_0000_0000 as int) < u128::MAX as int) by (nonlinear_arith);
    }
    let q: u128 = (aa * (m as u128) + (den as u128) / 2) / (den as u128);
    if neg {
        -(q as i64)
    } else {
        q as i64
    }
}

} // verus!
