//! Polygon vertices: a position together with linearly interpolable
//! attributes (here, a normal).

use crate::num::mul_div_trunc_spec;
use crate::dim3::vector::{lerp_between, vec_le, Vector};
use crate::{Unit, COORD_LIMIT};
use vstd::prelude::*;

verus! {

/// A polygon corner: position and outward normal, both fixed-point.
#[derive(Clone, Copy, Debug, PartialEq, Eq, Structural)]
pub struct Vertex {
    pub position: Vector,
    pub normal: Vector,
}

/// Both the position and the normal lie within the coordinate bound.
pub open spec fn vertex_bounded(v: Vertex) -> bool {
    &&& vec_le(v.position, COORD_LIMIT as int)
    &&& vec_le(v.normal, COORD_LIMIT as int)
}

/// The vertex `interpolate` yields for the fraction `num / den`.
pub open spec fn interpolate_spec(a: Vertex, b: Vertex, num: int, den: int) -> Vertex {
    Vertex {
        position: Vector(
            (a.position.0 + mul_div_trunc_spec(b.position.0 - a.position.0, num, den)) as i64,
            (a.position.1 + mul_div_trunc_spec(b.position.1 - a.position.1, num, den)) as i64,
            (a.position.2 + mul_div_trunc_spec(b.position.2 - a.position.2, num, den)) as i64,
        ),
        normal: Vector(
            (a.normal.0 + mul_div_trunc_spec(b.normal.0 - a.normal.0, num, den)) as i64,
            (a.normal.1 + mul_div_trunc_spec(b.normal.1 - a.normal.1, num, den)) as i64,
            (a.normal.2 + mul_div_trunc_spec(b.normal.2 - a.normal.2, num, den)) as i64,
        ),
    }
}

/// `flip` negates the normal and keeps the position.
pub open spec fn vertex_flip_spec(v: Vertex) -> Vertex {
    Vertex {
        position: v.position,
        normal: Vector((-v.normal.0) as i64, (-v.normal.1) as i64, (-v.normal.2) as i64),
    }
}

impl Vertex {
    pub fn new(position: Vector, normal: Vector) -> (r: Vertex)
        ensures
            r.position == position,
            r.normal == normal,
    {
        Vertex { position, normal }
    }

    /// Blend every attribute linearly from `self` toward `other` by the
    /// fraction `num / den`.
    pub fn interpolate(&self, other: Vertex, num: Unit, den: Unit) -> (r: Vertex)
        requires
            0 < den,
            0 <= num <= den,
            vertex_bounded(*self),
            vertex_bounded(other),
        ensures
            r == interpolate_spec(*self, other, num as int, den as int),
            vertex_bounded(r),
    {
        let r = Vertex {
            position: self.position.lerp(other.position, num, den),
            normal: self.normal.lerp(other.normal, num, den),
        };
        proof {
            lemma_between_bounded(self.position, r.position, other.position);
            lemma_between_bounded(self.normal, r.normal, other.normal);
        }
        r
    }

    /// Reverse the vertex's orientation: the normal is negated.
    pub fn flip(&self) -> (r: Vertex)
        requires
            vertex_bounded(*self),
        ensures
            r == vertex_flip_spec(*self),
            vertex_bounded(r),
    {
        Vertex { position: self.position, normal: self.normal.negate() }
    }
}

proof fn lemma_between_bounded(a: Vector, m: Vector, b: Vector)
    requires
        vec_le(a, COORD_LIMIT as int),
        vec_le(b, COORD_LIMIT as int),
        lerp_between(a.0 as int, m.0 as int, b.0 as int),
        lerp_between(a.1 as int, m.1 as int, b.1 as int),
        lerp_between(a.2 as int, m.2 as int, b.2 as int),
    ensures
        vec_le(m, COORD_LIMIT as int),
{
}

} // verus!
