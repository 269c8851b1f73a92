//! Line segments: the 2D faces.

use crate::dim2::plane::{from_points2_spec, plane2_flip_spec, plane2_wf, Plane};
use crate::dim2::point::{pt_le, Point};
use crate::COORD_LIMIT;
use vstd::prelude::*;

verus! {

/// A boundary segment from `p0` to `p1`, with the oriented line it
/// lies on cached beside it.
#[derive(Clone, Copy, Debug, PartialEq, Eq, Structural)]
pub struct Line {
    pub p0: Point,
    pub p1: Point,
    pub plane: Plane,
}

/// Well-formedness: endpoints bounded, cached plane bounded.
pub open spec fn line_wf(l: Line) -> bool {
    &&& pt_le(l.p0, COORD_LIMIT as int)
    &&& pt_le(l.p1, COORD_LIMIT as int)
    &&& plane2_wf(l.plane)
}

/// `flip` swaps the endpoints and flips the cached plane.
pub open spec fn line_flip_spec(l: Line) -> Line {
    Line { p0: l.p1, p1: l.p0, plane: plane2_flip_spec(l.plane) }
}

impl Line {
    /// A segment between two distinct points; the cached plane is the
    /// oriented line through them.
    pub fn new(p0: Point, p1: Point) -> (r: Line)
        requires
            pt_le(p0, COORD_LIMIT as int),
            pt_le(p1, COORD_LIMIT as int),
            p0 != p1,
        ensures
            r.p0 == p0 && r.p1 == p1,
            r.plane == from_points2_spec(p0, p1),
            line_wf(r),
    {
        Line { p0, p1, plane: Plane::from_points(p0, p1) }
    }

    /// Reverse the segment's orientation.
    pub fn flip(&self) -> (r: Line)
        requires
            line_wf(*self),
        ensures
            r == line_flip_spec(*self),
            line_wf(r),
    {
        Line { p0: self.p1, p1: self.p0, plane: self.plane.flip() }
    }
}

/// Flipping a bounded segment twice restores it bit-exactly.
pub proof fn lemma_line_flip_involution(l: Line)
    requires
        line_wf(l),
    ensures
        line_flip_spec(line_flip_spec(l)) == l,
{
}

} // verus!
