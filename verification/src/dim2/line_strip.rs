//! Poly-line builder: collects points and emits the consecutive
//! segments between them.

use crate::dim2::csg::{lines_of_points, Csg};
use crate::dim2::line::{line_wf, Line};
use crate::dim2::plane::from_points2_spec;
use crate::dim2::point::{pt_le, Point};
use crate::COORD_LIMIT;
use vstd::prelude::*;

verus! {

/// A strip of points; consecutive pairs become boundary segments.
#[derive(Clone, Debug)]
pub struct LineStrip {
    points: Vec<Point>,
    enclosed: bool,
}

/// Consecutive strip points are distinct and bounded, so each segment
/// can carry its oriented line.
pub open spec fn strip_wf(points: Seq<Point>) -> bool {
    &&& (forall|k: int| 0 <= k < points.len() ==> pt_le(#[trigger] points[k], COORD_LIMIT as int))
    &&& (forall|k: int| 1 <= k < points.len() ==> points[k - 1] != #[trigger] points[k])
}

impl View for LineStrip {
    type V = Seq<Point>;

    closed spec fn view(&self) -> Seq<Point> {
        self.points@
    }
}

impl LineStrip {
    /// An empty strip.
    pub fn new() -> (r: LineStrip)
        ensures
            r@ == Seq::<Point>::empty(),
    {
        LineStrip { points: Vec::new(), enclosed: false }
    }

    /// A strip over the given points.
    pub fn from_points(points: Vec<Point>) -> (r: LineStrip)
        ensures
            r@ == points@,
    {
        LineStrip { points, enclosed: false }
    }

    /// Extend the strip by one point.
    pub fn line_to(self, next: Point) -> (r: LineStrip)
        ensures
            r@ == self@.push(next),
    {
        let mut s = self;
        s.points.push(next);
        s
    }

    /// Mark the strip as a closed loop.
    pub fn enclose(self) -> (r: LineStrip)
        ensures
            r@ == self@,
    {
        let mut s = self;
        s.enclosed = true;
        s
    }

    /// The solid bounded by the strip's segments.
    pub fn build(&self) -> (r: Csg)
        requires
            strip_wf(self@),
        ensures
            r@ == lines_of_points(self@),
    {
        Csg::from_lines(self.build_lines())
    }

    /// The strip's segments: one line from each point to the next.
    pub fn build_lines(&self) -> (r: Vec<Line>)
        requires
            strip_wf(self@),
        ensures
            r@ == lines_of_points(self@),
            crate::dim2::bsp_node::lines_wf(r@),
    {
        let mut out: Vec<Line> = Vec::new();
        let n = self.points.len();
        if n == 0 {
            return out;
        }
        let mut i: usize = 1;
        while i < n
            invariant
                1 <= i <= n,
                n == self@.len(),
                strip_wf(self@),
                out@.len() == i - 1,
                forall|k: int|
                    0 <= k < i - 1 ==> #[trigger] out@[k] == (Line {
                        p0: self@[k],
                        p1: self@[k + 1],
                        plane: from_points2_spec(self@[k], self@[k + 1]),
                    }),
                forall|k: int| 0 <= k < i - 1 ==> line_wf(#[trigger] out@[k]),
            decreases n - i,
        {
            out.push(Line::new(self.points[i - 1], self.points[i]));
            i += 1;
        }
        proof {
            assert(out@ =~= lines_of_points(self@));
        }
        out
    }
}

} // verus!
