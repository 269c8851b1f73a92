//! Fixed-point 3D vectors.

use crate::num::{
    isqrt, isqrt_spec, lemma_div_le_bound, lemma_isqrt_spec_bounds, mul_div_round,
    mul_div_round_spec, mul_div_trunc, mul_div_trunc_spec,
};
use crate::{IUnit, Unit, COORD_LIMIT, SCALE};
use vstd::prelude::*;

verus! {

/// A 3D vector of fixed-point coordinates.
#[derive(Clone, Copy, Debug, PartialEq, Eq, Structural)]
pub struct Vector(pub Unit, pub Unit, pub Unit);

/// A 3D vector of discretised (snapped) coordinates.
#[derive(Clone, Copy, Debug, PartialEq, Eq, Hash, Structural)]
pub struct IVector(pub IUnit, pub IUnit, pub IUnit);

/// Every coordinate of `v` has magnitude at most `b`.
pub open spec fn vec_le(v: Vector, b: int) -> bool {
    &&& -b <= v.0 <= b
    &&& -b <= v.1 <= b
    &&& -b <= v.2 <= b
}

pub open spec fn dot_spec(a: Vector, b: Vector) -> int {
    a.0 * b.0 + a.1 * b.1 + a.2 * b.2
}

pub open spec fn cross_spec(a: Vector, b: Vector) -> (int, int, int) {
    (a.1 * b.2 - a.2 * b.1, a.2 * b.0 - a.0 * b.2, a.0 * b.1 - a.1 * b.0)
}

/// The length of `v` in raw units: the integer square root of the dot
/// square.
pub open spec fn length_spec(v: Vector) -> int {
    isqrt_spec(dot_spec(v, v))
}

/// Component of the unit vector along `v`, in fixed-point raw units.
pub open spec fn normalize_coord_spec(c: int, v: Vector) -> int {
    mul_div_trunc_spec(c, SCALE as int, length_spec(v))
}

impl Vector {
    #[inline]
    pub fn x(&self) -> (r: Unit)
        ensures
            r == self.0,
    {
        self.0
    }

    #[inline]
    pub fn y(&self) -> (r: Unit)
        ensures
            r == self.1,
    {
        self.1
    }

    #[inline]
    pub fn z(&self) -> (r: Unit)
        ensures
            r == self.2,
    {
        self.2
    }

    pub fn negate(&self) -> (r: Vector)
        requires
            i64::MIN < self.0,
            i64::MIN < self.1,
            i64::MIN < self.2,
        ensures
            r.0 == -self.0 && r.1 == -self.1 && r.2 == -self.2,
    {
        Vector(-self.0, -self.1, -self.2)
    }

    pub fn plus(&self, other: Vector) -> (r: Vector)
        requires
            i64::MIN <= self.0 + other.0 <= i64::MAX,
            i64::MIN <= self.1 + other.1 <= i64::MAX,
            i64::MIN <= self.2 + other.2 <= i64::MAX,
        ensures
            r.0 == self.0 + other.0 && r.1 == self.1 + other.1 && r.2 == self.2 + other.2,
    {
        Vector(self.0 + other.0, self.1 + other.1, self.2 + other.2)
    }

    pub fn minus(&self, other: Vector) -> (r: Vector)
        requires
            i64::MIN <= self.0 - other.0 <= i64::MAX,
            i64::MIN <= self.1 - other.1 <= i64::MAX,
            i64::MIN <= self.2 - other.2 <= i64::MAX,
        ensures
            r.0 == self.0 - other.0 && r.1 == self.1 - other.1 && r.2 == self.2 - other.2,
    {
        Vector(self.0 - other.0, self.1 - other.1, self.2 - other.2)
    }

    pub fn dot(&self, other: Vector) -> (r: Unit)
        requires
            vec_le(*self, 0x100_0000_0000),
            vec_le(other, 0x100_0000_0000),
            -(i64::MAX as int) <= dot_spec(*self, other) <= i64::MAX as int,
        ensures
            r == dot_spec(*self, other),
    {
        proof {
            lemma_prod_le(self.0 as int, other.0 as int, 0x100_0000_0000, 0x100_0000_0000);
            lemma_prod_le(self.1 as int, other.1 as int, 0x100_0000_0000, 0x100_0000_0000);
            lemma_prod_le(self.2 as int, other.2 as int, 0x100_0000_0000, 0x100_0000_0000);
        }
        let p: i128 = (self.0 as i128) * (other.0 as i128) + (self.1 as i128) * (other.1 as i128)
            + (self.2 as i128) * (other.2 as i128);
        p as i64
    }

    pub fn cross(&self, other: Vector) -> (r: Vector)
        requires
            vec_le(*self, 0x7FFF_FFFF),
            vec_le(other, 0x7FFF_FFFF),
        ensures
            (r.0 as int, r.1 as int, r.2 as int) == cross_spec(*self, other),
    {
        proof {
            lemma_prod_le(self.1 as int, other.2 as int, 0x7FFF_FFFF, 0x7FFF_FFFF);
            lemma_prod_le(self.2 as int, other.1 as int, 0x7FFF_FFFF, 0x7FFF_FFFF);
            lemma_prod_le(self.2 as int, other.0 as int, 0x7FFF_FFFF, 0x7FFF_FFFF);
            lemma_prod_le(self.0 as int, other.2 as int, 0x7FFF_FFFF, 0x7FFF_FFFF);
            lemma_prod_le(self.0 as int, other.1 as int, 0x7FFF_FFFF, 0x7FFF_FFFF);
            lemma_prod_le(self.1 as int, other.0 as int, 0x7FFF_FFFF, 0x7FFF_FFFF);
        }
        Vector(
            self.1 * other.2 - self.2 * other.1,
            self.2 * other.0 - self.0 * other.2,
            self.0 * other.1 - self.1 * other.0,
        )
    }

    /// Linear interpolation from `self` toward `other` by the fraction
    /// `num / den`; each coordinate is rounded toward `self`.
    pub fn lerp(&self, other: Vector, num: Unit, den: Unit) -> (r: Vector)
        requires
            0 < den,
            0 <= num <= den,
            vec_le(*self, 0x1000_0000_0000_0000),
            vec_le(other, 0x1000_0000_0000_0000),
        ensures
            r.0 == self.0 + mul_div_trunc_spec(other.0 - self.0, num as int, den as int),
            r.1 == self.1 + mul_div_trunc_spec(other.1 - self.1, num as int, den as int),
            r.2 == self.2 + mul_div_trunc_spec(other.2 - self.2, num as int, den as int),
            lerp_between(self.0 as int, r.0 as int, other.0 as int),
            lerp_between(self.1 as int, r.1 as int, other.1 as int),
            lerp_between(self.2 as int, r.2 as int, other.2 as int),
    {
        Vector(
            lerp_coord(self.0, other.0, num, den),
            lerp_coord(self.1, other.1, num, den),
            lerp_coord(self.2, other.2, num, den),
        )
    }

    /// Length of the vector, in raw fixed-point units.
    pub fn length(&self) -> (r: Unit)
        requires
            vec_le(*self, 0x4000_0000),
        ensures
            r == length_spec(*self),
            r >= 0,
    {
        proof {
            lemma_prod_le(self.0 as int, self.0 as int, 0x4000_0000, 0x4000_0000);
            lemma_prod_le(self.1 as int, self.1 as int, 0x4000_0000, 0x4000_0000);
            lemma_prod_le(self.2 as int, self.2 as int, 0x4000_0000, 0x4000_0000);
            lemma_square_nonneg(self.0 as int);
            lemma_square_nonneg(self.1 as int);
            lemma_square_nonneg(self.2 as int);
            lemma_isqrt_spec_bounds(dot_spec(*self, *self));
            assert(isqrt_spec(dot_spec(*self, *self)) * isqrt_spec(dot_spec(*self, *self))
                <= 0x3000_0000_0000_0000) by (nonlinear_arith)
                requires
                    isqrt_spec(dot_spec(*self, *self)) >= 0,
                    isqrt_spec(dot_spec(*self, *self)) * isqrt_spec(dot_spec(*self, *self))
                        <= dot_spec(*self, *self),
                    dot_spec(*self, *self) <= 0x3000_0000_0000_0000,
            ;
        }
        let sq: i128 = (self.0 as i128) * (self.0 as i128) + (self.1 as i128) * (self.1 as i128)
            + (self.2 as i128) * (self.2 as i128);
        let r = isqrt(sq as u128);
        proof {
            lemma_isqrt_spec_bounds(sq as int);
            let l = isqrt_spec(sq as int);
            assert(l <= 0x2_0000_0000) by (nonlinear_arith)
                requires
                    l >= 0,
                    l * l <= 0x3000_0000_0000_0000,
            ;
        }
        r as i64
    }

    /// Scale the vector so that its length is `SCALE` raw units, that
    /// is, one in real terms; each coordinate is rounded toward zero.
    pub fn normalize(&self) -> (r: Vector)
        requires
            vec_le(*self, 0x10_0000_0000_0000),
            *self != (Vector(0, 0, 0)),
        ensures
            r.0 == normalize_coord_spec(self.0 as int, *self),
            r.1 == normalize_coord_spec(self.1 as int, *self),
            r.2 == normalize_coord_spec(self.2 as int, *self),
            vec_le(r, SCALE as int),
    {
        proof {
            lemma_prod_le(self.0 as int, self.0 as int, 0x10_0000_0000_0000, 0x10_0000_0000_0000);
            lemma_prod_le(self.1 as int, self.1 as int, 0x10_0000_0000_0000, 0x10_0000_0000_0000);
            lemma_prod_le(self.2 as int, self.2 as int, 0x10_0000_0000_0000, 0x10_0000_0000_0000);
            lemma_square_nonneg(self.0 as int);
            lemma_square_nonneg(self.1 as int);
            lemma_square_nonneg(self.2 as int);
        }
        let sq: i128 = (self.0 as i128) * (self.0 as i128) + (self.1 as i128) * (self.1 as i128)
            + (self.2 as i128) * (self.2 as i128);
        let len64 = isqrt(sq as u128);
        proof {
            assert(sq >= 0);
            assert((sq as u128) as int == sq as int);
            lemma_isqrt_spec_bounds(sq as int);
            if len64 == 0 {
                let l = isqrt_spec(sq as int);
                assert(l == 0);
                assert((sq as int) < (l + 1) * (l + 1));
                assert((sq as int) < 1) by (nonlinear_arith)
                    requires
                        (sq as int) < (0 + 1) * (0 + 1),
                ;
                assert((self.0 as int) * (self.0 as int) == 0) by (nonlinear_arith)
                    requires
                        (self.0 as int) * (self.0 as int) >= 0,
                        (self.1 as int) * (self.1 as int) >= 0,
                        (self.2 as int) * (self.2 as int) >= 0,
                        (self.0 as int) * (self.0 as int) + (self.1 as int) * (self.1 as int) + (
                        self.2 as int) * (self.2 as int) < 1,
                ;
                assert(self.0 == 0) by (nonlinear_arith)
                    requires
                        (self.0 as int) * (self.0 as int) == 0,
                ;
                assert((self.1 as int) * (self.1 as int) == 0) by (nonlinear_arith)
                    requires
                        (self.0 as int) * (self.0 as int) >= 0,
                        (self.1 as int) * (self.1 as int) >= 0,
                        (self.2 as int) * (self.2 as int) >= 0,
                        (self.0 as int) * (self.0 as int) + (self.1 as int) * (self.1 as int) + (
                        self.2 as int) * (self.2 as int) < 1,
                ;
                assert(self.1 == 0) by (nonlinear_arith)
                    requires
                        (self.1 as int) * (self.1 as int) == 0,
                ;
                assert((self.2 as int) * (self.2 as int) == 0) by (nonlinear_arith)
                    requires
                        (self.0 as int) * (self.0 as int) >= 0,
                        (self.1 as int) * (self.1 as int) >= 0,
                        (self.2 as int) * (self.2 as int) >= 0,
                        (self.0 as int) * (self.0 as int) + (self.1 as int) * (self.1 as int) + (
                        self.2 as int) * (self.2 as int) < 1,
                ;
                assert(self.2 == 0) by (nonlinear_arith)
                    requires
                        (self.2 as int) * (self.2 as int) == 0,
                ;
                assert(false);
            }
            lemma_component_le_length(*self);
            let l = isqrt_spec(sq as int);
            assert(l <= 0x1C_0000_0000_0000) by (nonlinear_arith)
                requires
                    l >= 0,
                    l * l <= 0x300_0000_0000_0000_0000_0000_0000,
            ;
        }
        let len = len64 as i64;
        Vector(
            norm_coord(self.0, len),
            norm_coord(self.1, len),
            norm_coord(self.2, len),
        )
    }

    /// Snap the vector to an integer grid: each coordinate is scaled by
    /// `step` (relative to one real unit) and rounded to the nearest
    /// integer.
    pub fn discreet(&self, step: Unit) -> (r: IVector)
        requires
            vec_le(*self, COORD_LIMIT as int),
            0 < step <= 8192,
        ensures
            r.0 == mul_div_round_spec(self.0 as int, step as int, SCALE as int),
            r.1 == mul_div_round_spec(self.1 as int, step as int, SCALE as int),
            r.2 == mul_div_round_spec(self.2 as int, step as int, SCALE as int),
    {
        IVector(
            discreet_coord(self.0, step),
            discreet_coord(self.1, step),
            discreet_coord(self.2, step),
        )
    }

    /// Kept for interface parity with vector helpers that derive an
    /// orthogonal frame; the 3D library derives frames from cross
    /// products instead and this returns the vector unchanged.
    pub fn make_orthogonal(&self) -> (r: Vector)
        ensures
            r == *self,
    {
        *self
    }
}

/// `m` lies between `a` and `b` (inclusive), whichever their order.
pub open spec fn lerp_between(a: int, m: int, b: int) -> bool {
    if a <= b {
        a <= m <= b
    } else {
        b <= m <= a
    }
}

fn lerp_coord(a: i64, b: i64, num: i64, den: i64) -> (r: i64)
    requires
        0 < den,
        0 <= num <= den,
        -0x1000_0000_0000_0000 <= a <= 0x1000_0000_0000_0000,
        -0x1000_0000_0000_0000 <= b <= 0x1000_0000_0000_0000,
    ensures
        r == a + mul_div_trunc_spec(b - a, num as int, den as int),
        lerp_between(a as int, r as int, b as int),
{
    let d = b - a;
    proof {
        let dd = if d >= 0 {
            d as int
        } else {
            -(d as int)
        };
        assert(dd * (num as int) <= dd * (den as int)) by (nonlinear_arith)
            requires
                0 <= dd,
                0 <= num as int <= den as int,
        ;
        lemma_div_le_bound(dd * (num as int), dd, den as int);
    }
    let off = mul_div_trunc(d, num, den);
    a + off
}

fn norm_coord(c: i64, len: i64) -> (r: i64)
    requires
        0 < len,
        -len <= c <= len,
        len <= 0x1C_0000_0000_0000,
    ensures
        r == mul_div_trunc_spec(c as int, SCALE as int, len as int),
        -SCALE <= r <= SCALE,
{
    proof {
        let cc = if c >= 0 {
            c as int
        } else {
            -(c as int)
        };
        assert(cc * (SCALE as int) <= (SCALE as int) * (len as int)) by (nonlinear_arith)
            requires
                0 <= cc <= len as int,
                0 < SCALE as int,
        ;
        lemma_div_le_bound(cc * (SCALE as int), SCALE as int, len as int);
    }
    mul_div_trunc(c, SCALE, len)
}

fn discreet_coord(c: i64, step: i64) -> (r: i32)
    requires
        -(COORD_LIMIT as int) <= c <= COORD_LIMIT as int,
        0 < step <= 8192,
    ensures
        r == mul_div_round_spec(c as int, step as int, SCALE as int),
{
    proof {
        let cc = if c >= 0 {
            c as int
        } else {
            -(c as int)
        };
        assert(cc * (step as int) + (SCALE as int) / 2 <= (0x8000_0000 - 1) * (SCALE as int))
            by (nonlinear_arith)
            requires
                0 <= cc <= COORD_LIMIT as int,
                0 < step as int <= 8192,
                COORD_LIMIT == 16777216 && SCALE == 65536,
        ;
        lemma_div_le_bound(cc * (step as int) + (SCALE as int) / 2, 0x8000_0000 - 1, SCALE as int);
    }
    let r = mul_div_round(c, step, SCALE);
    r as i32
}

pub proof fn lemma_prod_le(a: int, b: int, ba: int, bb: int)
    requires
        -ba <= a <= ba,
        -bb <= b <= bb,
        0 <= ba,
        0 <= bb,
    ensures
        -(ba * bb) <= a * b <= ba * bb,
{
    assert(-(ba * bb) <= a * b <= ba * bb) by (nonlinear_arith)
        requires
            -ba <= a <= ba,
            -bb <= b <= bb,
            0 <= ba,
            0 <= bb,
    ;
}

proof fn lemma_square_nonneg(a: int)
    ensures
        a * a >= 0,
{
    assert(a * a >= 0) by (nonlinear_arith);
}

/// Each coordinate's magnitude is at most the vector's length.
proof fn lemma_component_le_length(v: Vector)
    ensures
        -length_spec(v) <= v.0 <= length_spec(v),
        -length_spec(v) <= v.1 <= length_spec(v),
        -length_spec(v) <= v.2 <= length_spec(v),
{
    let d = dot_spec(v, v);
    lemma_square_nonneg(v.0 as int);
    lemma_square_nonneg(v.1 as int);
    lemma_square_nonneg(v.2 as int);
    lemma_isqrt_spec_bounds(d);
    let l = isqrt_spec(d);
    assert(-l <= v.0 <= l && -l <= v.1 <= l && -l <= v.2 <= l) by (nonlinear_arith)
        requires
            l >= 0,
            d < (l + 1) * (l + 1),
            d == (v.0 as int) * (v.0 as int) + (v.1 as int) * (v.1 as int) + (v.2 as int) * (
            v.2 as int),
            (v.0 as int) * (v.0 as int) >= 0,
            (v.1 as int) * (v.1 as int) >= 0,
            (v.2 as int) * (v.2 as int) >= 0,
    ;
}

} // verus!
