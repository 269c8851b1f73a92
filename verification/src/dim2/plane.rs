//! Oriented lines ("planes" of the 2D space) and the segment-splitting
//! primitive.

use crate::dim2::line::{line_wf, Line};
use crate::dim2::point::{
    dot2_spec, interpolate2_spec, normalize2_coord_spec, pt_le, Point,
};
use crate::dim3::vector::lemma_prod_le;
use crate::{Unit, COORD_LIMIT, EPSILON, SCALE, W_LIMIT};
use vstd::prelude::*;

verus! {

/// An oriented line `n . p == w`, the normal held in fixed point with
/// magnitude about one.
#[derive(Clone, Copy, Debug, PartialEq, Eq, Structural)]
pub struct Plane(pub Point, pub Unit);

/// Bounded plane: unit-scaled normal, offset within range of bounded
/// points.
pub open spec fn plane2_wf(p: Plane) -> bool {
    &&& pt_le(p.0, SCALE as int)
    &&& -(W_LIMIT as int) <= p.1 <= W_LIMIT as int
}

/// `flip` negates the normal and the offset.
pub open spec fn plane2_flip_spec(p: Plane) -> Plane {
    Plane(Point((-p.0.0) as i64, (-p.0.1) as i64), (-p.1) as i64)
}

/// The oriented line through `p0` and `p1`: normal orthogonal to the
/// direction, scaled to unit length, offset from `p0`.
pub open spec fn from_points2_spec(p0: Point, p1: Point) -> Plane {
    let d = Point((p1.0 - p0.0) as i64, (p1.1 - p0.1) as i64);
    let o = Point(d.1, (-d.0) as i64);
    let n = Point(
        normalize2_coord_spec(o.0 as int, o) as i64,
        normalize2_coord_spec(o.1 as int, o) as i64,
    );
    Plane(n, dot2_spec(n, p0) as i64)
}

/// Signed raw offset of a point from an oriented line.
pub open spec fn plane2_offset(pl: Plane, p: Point) -> int {
    dot2_spec(pl.0, p) - pl.1
}

pub use crate::dim3::plane::Location;

/// Classification of one point, by its raw offset against the
/// tolerance.
pub open spec fn classify2_spec(pl: Plane, p: Point) -> Location {
    let t = plane2_offset(pl, p);
    if t < -(EPSILON as int) {
        Location::Back
    } else if t > EPSILON as int {
        Location::Front
    } else {
        Location::Coplanar
    }
}

/// The interpolated point where the segment from `a` to `b` crosses
/// `pl`; numerator and denominator are arranged positive.
pub open spec fn crossing2_num_spec(pl: Plane, a: Point) -> int {
    if classify2_spec(pl, a) == Location::Back {
        -plane2_offset(pl, a)
    } else {
        plane2_offset(pl, a)
    }
}

pub open spec fn crossing2_den_spec(pl: Plane, a: Point, b: Point) -> int {
    if classify2_spec(pl, a) == Location::Back {
        plane2_offset(pl, b) - plane2_offset(pl, a)
    } else {
        plane2_offset(pl, a) - plane2_offset(pl, b)
    }
}

pub open spec fn crossing2_point_spec(pl: Plane, a: Point, b: Point) -> Point {
    interpolate2_spec(a, b, crossing2_num_spec(pl, a), crossing2_den_spec(pl, a, b))
}

/// What `split_lines` appends to each of its four output lists.
#[verifier::ext_equal]
pub struct SplitDelta2 {
    pub coplanar_front: Seq<Line>,
    pub coplanar_back: Seq<Line>,
    pub front: Seq<Line>,
    pub back: Seq<Line>,
}

/// The complete 2D splitting rule: a segment whose endpoints both
/// touch the line goes to one coplanar list by the sign of `n . p0`;
/// a segment entirely on one side goes there whole; a spanning
/// segment leaves one piece per side, sharing the crossing point and
/// keeping the parent's plane.
pub open spec fn split_lines_spec(pl: Plane, l: Line) -> SplitDelta2 {
    let t0 = classify2_spec(pl, l.p0);
    let t1 = classify2_spec(pl, l.p1);
    let t = crate::dim3::plane::loc_join_spec(t0, t1);
    let none = Seq::<Line>::empty();
    if t == Location::Coplanar {
        if dot2_spec(pl.0, l.p0) > 0 {
            SplitDelta2 { coplanar_front: seq![l], coplanar_back: none, front: none, back: none }
        } else {
            SplitDelta2 { coplanar_front: none, coplanar_back: seq![l], front: none, back: none }
        }
    } else if t == Location::Front {
        SplitDelta2 { coplanar_front: none, coplanar_back: none, front: seq![l], back: none }
    } else if t == Location::Back {
        SplitDelta2 { coplanar_front: none, coplanar_back: none, front: none, back: seq![l] }
    } else {
        let x = crossing2_point_spec(pl, l.p0, l.p1);
        if t0 == Location::Front {
            SplitDelta2 {
                coplanar_front: none,
                coplanar_back: none,
                front: seq![Line { p0: l.p0, p1: x, plane: l.plane }],
                back: seq![Line { p0: x, p1: l.p1, plane: l.plane }],
            }
        } else {
            SplitDelta2 {
                coplanar_front: none,
                coplanar_back: none,
                front: seq![Line { p0: x, p1: l.p1, plane: l.plane }],
                back: seq![Line { p0: l.p0, p1: x, plane: l.plane }],
            }
        }
    }
}

/// Flipping a bounded oriented line twice restores it bit-exactly.
pub proof fn lemma_plane2_flip_involution(p: Plane)
    requires
        plane2_wf(p),
    ensures
        plane2_flip_spec(plane2_flip_spec(p)) == p,
{
}

/// Offsets of bounded points from bounded lines stay well inside
/// `i64`.
pub proof fn lemma_offset2_bounded(pl: Plane, p: Point)
    requires
        plane2_wf(pl),
        pt_le(p, COORD_LIMIT as int),
    ensures
        -2 * (W_LIMIT as int) <= plane2_offset(pl, p) <= 2 * (W_LIMIT as int),
{
    lemma_prod_le(pl.0.0 as int, p.0 as int, SCALE as int, COORD_LIMIT as int);
    lemma_prod_le(pl.0.1 as int, p.1 as int, SCALE as int, COORD_LIMIT as int);
}

impl Plane {
    pub fn from_points(p0: Point, p1: Point) -> (r: Plane)
        requires
            pt_le(p0, COORD_LIMIT as int),
            pt_le(p1, COORD_LIMIT as int),
            p0 != p1,
        ensures
            r == from_points2_spec(p0, p1),
            plane2_wf(r),
    {
        let d = p1.minus(p0);
        let o = d.orthogonal();
        let n = o.normalize();
        proof {
            lemma_prod_le(n.0 as int, p0.0 as int, SCALE as int, COORD_LIMIT as int);
            lemma_prod_le(n.1 as int, p0.1 as int, SCALE as int, COORD_LIMIT as int);
        }
        let w = n.dot(p0);
        Plane(n, w)
    }

    pub fn flip(&self) -> (r: Plane)
        requires
            plane2_wf(*self),
        ensures
            r == plane2_flip_spec(*self),
            plane2_wf(r),
    {
        Plane(self.0.negate(), -self.1)
    }

    /// The signed raw offset `n . p - w` of a point from this line.
    pub fn offset_of(&self, p: Point) -> (r: Unit)
        requires
            plane2_wf(*self),
            pt_le(p, COORD_LIMIT as int),
        ensures
            r == plane2_offset(*self, p),
    {
        proof {
            lemma_prod_le(self.0.0 as int, p.0 as int, SCALE as int, COORD_LIMIT as int);
            lemma_prod_le(self.0.1 as int, p.1 as int, SCALE as int, COORD_LIMIT as int);
        }
        let d = self.0.dot(p);
        d - self.1
    }

    /// Classify one point against this line.
    pub fn classify(&self, p: Point) -> (r: Location)
        requires
            plane2_wf(*self),
            pt_le(p, COORD_LIMIT as int),
        ensures
            r == classify2_spec(*self, p),
    {
        let t = self.offset_of(p);
        if t < -EPSILON {
            Location::Back
        } else if t > EPSILON {
            Location::Front
        } else {
            Location::Coplanar
        }
    }

    /// Split `line` by this oriented line and append the pieces to the
    /// four lists, as `split_lines_spec` states.
    pub fn split_lines(
        &self,
        line: Line,
        coplanar_front: &mut Vec<Line>,
        coplanar_back: &mut Vec<Line>,
        front: &mut Vec<Line>,
        back: &mut Vec<Line>,
    )
        requires
            plane2_wf(*self),
            line_wf(line),
        ensures
            final(coplanar_front)@ == old(coplanar_front)@ + split_lines_spec(
                *self,
                line,
            ).coplanar_front,
            final(coplanar_back)@ == old(coplanar_back)@ + split_lines_spec(
                *self,
                line,
            ).coplanar_back,
            final(front)@ == old(front)@ + split_lines_spec(*self, line).front,
            final(back)@ == old(back)@ + split_lines_spec(*self, line).back,
            forall|k: int|
                old(front)@.len() <= k < final(front)@.len() ==> line_wf(#[trigger] final(front)@[k]),
            forall|k: int|
                old(back)@.len() <= k < final(back)@.len() ==> line_wf(#[trigger] final(back)@[k]),
            forall|k: int|
                old(coplanar_front)@.len() <= k < final(coplanar_front)@.len() ==> line_wf(
                    #[trigger] final(coplanar_front)@[k],
                ),
            forall|k: int|
                old(coplanar_back)@.len() <= k < final(coplanar_back)@.len() ==> line_wf(
                    #[trigger] final(coplanar_back)@[k],
                ),
    {
        let t0 = self.classify(line.p0);
        let t1 = self.classify(line.p1);
        let ghost delta = split_lines_spec(*self, line);
        if t0 == Location::Coplanar && t1 == Location::Coplanar {
            proof {
                lemma_prod_le(self.0.0 as int, line.p0.0 as int, SCALE as int, COORD_LIMIT as int);
                lemma_prod_le(self.0.1 as int, line.p0.1 as int, SCALE as int, COORD_LIMIT as int);
            }
            let d = self.0.dot(line.p0);
            if d > 0 {
                coplanar_front.push(line);
            } else {
                coplanar_back.push(line);
            }
        } else if t0 != Location::Back && t1 != Location::Back {
            front.push(line);
        } else if t0 != Location::Front && t1 != Location::Front {
            back.push(line);
        } else {
            let t0_raw = self.offset_of(line.p0);
            let t1_raw = self.offset_of(line.p1);
            proof {
                lemma_offset2_bounded(*self, line.p0);
                lemma_offset2_bounded(*self, line.p1);
            }
            let num = if t0 == Location::Back {
                -t0_raw
            } else {
                t0_raw
            };
            let den = if t0 == Location::Back {
                t1_raw - t0_raw
            } else {
                t0_raw - t1_raw
            };
            let x = line.p0.interpolate(line.p1, num, den);
            if t0 == Location::Front {
                front.push(Line { p0: line.p0, p1: x, plane: line.plane });
                back.push(Line { p0: x, p1: line.p1, plane: line.plane });
            } else {
                front.push(Line { p0: x, p1: line.p1, plane: line.plane });
                back.push(Line { p0: line.p0, p1: x, plane: line.plane });
            }
        }
        proof {
            assert(coplanar_front@ =~= old(coplanar_front)@ + delta.coplanar_front);
            assert(coplanar_back@ =~= old(coplanar_back)@ + delta.coplanar_back);
            assert(front@ =~= old(front)@ + delta.front);
            assert(back@ =~= old(back)@ + delta.back);
        }
    }
}

} // verus!
