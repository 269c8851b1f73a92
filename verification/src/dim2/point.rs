//! Fixed-point 2D points.

use crate::num::{
    isqrt, isqrt_spec, lemma_div_le_bound, lemma_isqrt_spec_bounds, mul_div_trunc,
    mul_div_trunc_spec,
};
use crate::{Unit, COORD_LIMIT, SCALE};
use vstd::prelude::*;

verus! {

/// A 2D point (or vector) of fixed-point coordinates.
#[derive(Clone, Copy, Debug, PartialEq, Eq, Structural)]
pub struct Point(pub Unit, pub Unit);

/// Both coordinates of `p` have magnitude at most `b`.
pub open spec fn pt_le(p: Point, b: int) -> bool {
    &&& -b <= p.0 <= b
    &&& -b <= p.1 <= b
}

pub open spec fn dot2_spec(a: Point, b: Point) -> int {
    a.0 * b.0 + a.1 * b.1
}

/// The length of `p` in raw units.
pub open spec fn length2_spec(p: Point) -> int {
    isqrt_spec(dot2_spec(p, p))
}

/// Component of the unit vector along `p`, in fixed-point raw units.
pub open spec fn normalize2_coord_spec(c: int, p: Point) -> int {
    mul_div_trunc_spec(c, SCALE as int, length2_spec(p))
}

/// `m` lies between `a` and `b` (inclusive), whichever their order.
pub open spec fn between2(a: int, m: int, b: int) -> bool {
    if a <= b {
        a <= m <= b
    } else {
        b <= m <= a
    }
}

impl Point {
    pub fn negate(&self) -> (r: Point)
        requires
            i64::MIN < self.0,
            i64::MIN < self.1,
        ensures
            r.0 == -self.0 && r.1 == -self.1,
    {
        Point(-self.0, -self.1)
    }

    pub fn minus(&self, other: Point) -> (r: Point)
        requires
            i64::MIN <= self.0 - other.0 <= i64::MAX,
            i64::MIN <= self.1 - other.1 <= i64::MAX,
        ensures
            r.0 == self.0 - other.0 && r.1 == self.1 - other.1,
    {
        Point(self.0 - other.0, self.1 - other.1)
    }

    pub fn dot(&self, other: Point) -> (r: Unit)
        requires
            pt_le(*self, 0x100_0000_0000),
            pt_le(other, 0x100_0000_0000),
            -(i64::MAX as int) <= dot2_spec(*self, other) <= i64::MAX as int,
        ensures
            r == dot2_spec(*self, other),
    {
        proof {
            crate::dim3::vector::lemma_prod_le(
                self.0 as int,
                other.0 as int,
                0x100_0000_0000,
                0x100_0000_0000,
            );
            crate::dim3::vector::lemma_prod_le(
                self.1 as int,
                other.1 as int,
                0x100_0000_0000,
                0x100_0000_0000,
            );
        }
        let p: i128 = (self.0 as i128) * (other.0 as i128) + (self.1 as i128) * (other.1 as i128);
        p as i64
    }

    /// The vector orthogonal to `self`, a quarter turn clockwise, so
    /// that walking a counter-clockwise boundary keeps it pointing
    /// outward.
    pub fn orthogonal(&self) -> (r: Point)
        requires
            i64::MIN < self.0,
            i64::MIN < self.1,
        ensures
            r.0 == self.1 && r.1 == -self.0,
    {
        Point(self.1, -self.0)
    }

    /// Scale the vector so that its length is `SCALE` raw units;
    /// coordinates are rounded toward zero.
    pub fn normalize(&self) -> (r: Point)
        requires
            pt_le(*self, 0x10_0000_0000_0000),
            *self != (Point(0, 0)),
        ensures
            r.0 == normalize2_coord_spec(self.0 as int, *self),
            r.1 == normalize2_coord_spec(self.1 as int, *self),
            pt_le(r, SCALE as int),
    {
        proof {
            crate::dim3::vector::lemma_prod_le(
                self.0 as int,
                self.0 as int,
                0x10_0000_0000_0000,
                0x10_0000_0000_0000,
            );
            crate::dim3::vector::lemma_prod_le(
                self.1 as int,
                self.1 as int,
                0x10_0000_0000_0000,
                0x10_0000_0000_0000,
            );
            assert((self.0 as int) * (self.0 as int) >= 0) by (nonlinear_arith);
            assert((self.1 as int) * (self.1 as int) >= 0) by (nonlinear_arith);
        }
        let sq: i128 = (self.0 as i128) * (self.0 as i128) + (self.1 as i128) * (self.1 as i128);
        let len64 = isqrt(sq as u128);
        proof {
            assert(sq >= 0);
            assert((sq as u128) as int == sq as int);
            lemma_isqrt_spec_bounds(sq as int);
            let l = isqrt_spec(sq as int);
            if len64 == 0 {
                assert((sq as int) < (l + 1) * (l + 1));
                assert(self.0 == 0 && self.1 == 0) by (nonlinear_arith)
                    requires
                        (self.0 as int) * (self.0 as int) + (self.1 as int) * (self.1 as int) < (0
                            + 1) * (0 + 1),
                ;
                assert(false);
            }
            assert(l <= 0x1C_0000_0000_0000) by (nonlinear_arith)
                requires
                    l >= 0,
                    l * l <= 0x200_0000_0000_0000_0000_0000_0000,
            ;
            lemma_component2_le_length(*self);
        }
        let len = len64 as i64;
        Point(norm2_coord(self.0, len), norm2_coord(self.1, len))
    }

    /// Linear interpolation from `self` toward `other` by the fraction
    /// `num / den`; coordinates are rounded toward `self`.
    pub fn interpolate(&self, other: Point, num: Unit, den: Unit) -> (r: Point)
        requires
            0 < den,
            0 <= num <= den,
            pt_le(*self, 0x1000_0000_0000_0000),
            pt_le(other, 0x1000_0000_0000_0000),
        ensures
            r == interpolate2_spec(*self, other, num as int, den as int),
            between2(self.0 as int, r.0 as int, other.0 as int),
            between2(self.1 as int, r.1 as int, other.1 as int),
    {
        Point(
            lerp2_coord(self.0, other.0, num, den),
            lerp2_coord(self.1, other.1, num, den),
        )
    }
}

/// The point `interpolate` yields for the fraction `num / den`.
pub open spec fn interpolate2_spec(a: Point, b: Point, num: int, den: int) -> Point {
    Point(
        (a.0 + mul_div_trunc_spec(b.0 - a.0, num, den)) as i64,
        (a.1 + mul_div_trunc_spec(b.1 - a.1, num, den)) as i64,
    )
}

fn lerp2_coord(a: i64, b: i64, num: i64, den: i64) -> (r: i64)
    requires
        0 < den,
        0 <= num <= den,
        -0x1000_0000_0000_0000 <= a <= 0x1000_0000_0000_0000,
        -0x1000_0000_0000_0000 <= b <= 0x1000_0000_0000_0000,
    ensures
        r == a + mul_div_trunc_spec(b - a, num as int, den as int),
        between2(a as int, r as int, b as int),
{
    let d = b - a;
    proof {
        let dd = if d >= 0 {
            d as int
        } else {
            -(d as int)
        };
        assert(dd * (num as int) <= dd * (den as int)) by (nonlinear_arith)
            requires
                0 <= dd,
                0 <= num as int <= den as int,
        ;
        lemma_div_le_bound(dd * (num as int), dd, den as int);
    }
    let off = mul_div_trunc(d, num, den);
    a + off
}

fn norm2_coord(c: i64, len: i64) -> (r: i64)
    requires
        0 < len,
        -len <= c <= len,
        len <= 0x1C_0000_0000_0000,
    ensures
        r == mul_div_trunc_spec(c as int, SCALE as int, len as int),
        -SCALE <= r <= SCALE,
{
    proof {
        let cc = if c >= 0 {
            c as int
        } else {
            -(c as int)
        };
        assert(cc * (SCALE as int) <= (SCALE as int) * (len as int)) by (nonlinear_arith)
            requires
                0 <= cc <= len as int,
                0 < SCALE as int,
        ;
        lemma_div_le_bound(cc * (SCALE as int), SCALE as int, len as int);
    }
    mul_div_trunc(c, SCALE, len)
}

/// Each coordinate's magnitude is at most the point's length.
proof fn lemma_component2_le_length(p: Point)
    ensures
        -length2_spec(p) <= p.0 <= length2_spec(p),
        -length2_spec(p) <= p.1 <= length2_spec(p),
{
    let d = dot2_spec(p, p);
    assert((p.0 as int) * (p.0 as int) >= 0) by (nonlinear_arith);
    assert((p.1 as int) * (p.1 as int) >= 0) by (nonlinear_arith);
    lemma_isqrt_spec_bounds(d);
    let l = isqrt_spec(d);
    assert(-l <= p.0 <= l && -l <= p.1 <= l) by (nonlinear_arith)
        requires
            l >= 0,
            d < (l + 1) * (l + 1),
            d == (p.0 as int) * (p.0 as int) + (p.1 as int) * (p.1 as int),
            (p.0 as int) * (p.0 as int) >= 0,
            (p.1 as int) * (p.1 as int) >= 0,
    ;
}

} // verus!
