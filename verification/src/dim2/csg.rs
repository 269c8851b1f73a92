//! The 2D CSG facade: a solid is a segment list, and the boolean
//! operations run the same clip protocol as the 3D evaluator.

use crate::dim2::bsp_node::{
    all2_view, build2_view, clip_to2_view, duplicate_lines, empty_node2_view, invert2_view,
    lemma_all2_view_wf, lines_wf, node2_wf, BspNode,
};
use crate::dim2::line::Line;
use crate::dim2::plane::from_points2_spec;
use crate::dim2::point::Point;
use crate::{CsgError, DEFAULT_DEPTH};
use vstd::prelude::*;

verus! {

/// A 2D solid: the segment list of its closed boundary.
pub struct Csg {
    pub lines: Vec<Line>,
}

impl View for Csg {
    type V = Seq<Line>;

    open spec fn view(&self) -> Seq<Line> {
        self.lines@
    }
}

/// Every segment of the solid is well-formed.
pub open spec fn solid2_wf(s: Seq<Line>) -> bool {
    lines_wf(s)
}

/// The segments a strip of points yields: one per consecutive pair.
pub open spec fn lines_of_points(points: Seq<Point>) -> Seq<Line> {
    if points.len() == 0 {
        Seq::empty()
    } else {
        Seq::new(
            (points.len() - 1) as nat,
            |k: int|
                Line {
                    p0: points[k],
                    p1: points[k + 1],
                    plane: from_points2_spec(points[k], points[k + 1]),
                },
        )
    }
}

/// The union protocol over segment lists.
pub open spec fn union2_view(a: Seq<Line>, b: Seq<Line>, fuel: nat) -> Option<Seq<Line>> {
    match build2_view(empty_node2_view(), a, fuel) {
        Option::None => Option::None,
        Option::Some(na0) => match build2_view(empty_node2_view(), b, fuel) {
            Option::None => Option::None,
            Option::Some(nb0) => {
                let na1 = clip_to2_view(na0, nb0);
                let nb1 = clip_to2_view(nb0, na1);
                let nb2 = invert2_view(nb1);
                let nb3 = clip_to2_view(nb2, na1);
                let nb4 = invert2_view(nb3);
                match build2_view(na1, all2_view(nb4), fuel) {
                    Option::None => Option::None,
                    Option::Some(na2) => Option::Some(all2_view(na2)),
                }
            },
        },
    }
}

/// The intersection protocol over segment lists.
pub open spec fn intersect2_view(a: Seq<Line>, b: Seq<Line>, fuel: nat) -> Option<Seq<Line>> {
    match build2_view(empty_node2_view(), a, fuel) {
        Option::None => Option::None,
        Option::Some(na0) => match build2_view(empty_node2_view(), b, fuel) {
            Option::None => Option::None,
            Option::Some(nb0) => {
                let na1 = invert2_view(na0);
                let nb1 = clip_to2_view(nb0, na1);
                let nb2 = invert2_view(nb1);
                let na2 = clip_to2_view(na1, nb2);
                let nb3 = clip_to2_view(nb2, na2);
                match build2_view(na2, all2_view(nb3), fuel) {
                    Option::None => Option::None,
                    Option::Some(na3) => Option::Some(all2_view(invert2_view(na3))),
                }
            },
        },
    }
}

/// The difference protocol over segment lists, `a` minus `b`.
pub open spec fn subtract2_view(a: Seq<Line>, b: Seq<Line>, fuel: nat) -> Option<Seq<Line>> {
    match build2_view(empty_node2_view(), a, fuel) {
        Option::None => Option::None,
        Option::Some(na0) => match build2_view(empty_node2_view(), b, fuel) {
            Option::None => Option::None,
            Option::Some(nb0) => {
                let na1 = invert2_view(na0);
                let na2 = clip_to2_view(na1, nb0);
                let nb1 = clip_to2_view(nb0, na2);
                let nb2 = invert2_view(nb1);
                let nb3 = clip_to2_view(nb2, na2);
                let nb4 = invert2_view(nb3);
                match build2_view(na2, all2_view(nb4), fuel) {
                    Option::None => Option::None,
                    Option::Some(na3) => Option::Some(all2_view(invert2_view(na3))),
                }
            },
        },
    }
}

impl Csg {
    /// The empty 2D solid.
    pub fn new() -> (r: Csg)
        ensures
            r@ == Seq::<Line>::empty(),
            solid2_wf(r@),
    {
        Csg { lines: Vec::new() }
    }

    /// Wrap a segment list as a solid.
    pub fn from_lines(lines: Vec<Line>) -> (r: Csg)
        ensures
            r@ == lines@,
    {
        Csg { lines }
    }

    /// The boundary's segment list, copied out.
    pub fn to_lines(&self) -> (r: Vec<Line>)
        ensures
            r@ == self@,
    {
        duplicate_lines(&self.lines)
    }

    /// The union of two 2D solids, by the exact protocol that
    /// `union2_view` states.
    pub fn union(a: &Csg, b: &Csg) -> (r: Result<Csg, CsgError>)
        requires
            solid2_wf(a@),
            solid2_wf(b@),
        ensures
            union2_view(a@, b@, DEFAULT_DEPTH as nat) is Some ==> r is Ok && r->Ok_0@
                == union2_view(a@, b@, DEFAULT_DEPTH as nat).unwrap(),
            union2_view(a@, b@, DEFAULT_DEPTH as nat) is None ==> r == Result::<Csg, CsgError>::Err(
                CsgError::DepthExceeded,
            ),
            r is Ok ==> solid2_wf(r->Ok_0@),
    {
        let mut na = match BspNode::new(Option::Some(a.to_lines())) {
            Result::Ok(n) => n,
            Result::Err(e) => {
                return Result::Err(e);
            },
        };
        let mut nb = match BspNode::new(Option::Some(b.to_lines())) {
            Result::Ok(n) => n,
            Result::Err(e) => {
                return Result::Err(e);
            },
        };
        na.clip_to(&nb);
        nb.clip_to(&na);
        nb.invert();
        nb.clip_to(&na);
        nb.invert();
        proof {
            lemma_all2_view_wf(nb@);
        }
        let extra = nb.all_lines();
        match na.build(extra, DEFAULT_DEPTH) {
            Result::Ok(()) => {},
            Result::Err(e) => {
                return Result::Err(e);
            },
        }
        proof {
            lemma_all2_view_wf(na@);
        }
        let lines = na.all_lines();
        Result::Ok(Csg { lines })
    }

    /// The intersection of two 2D solids, by the exact protocol that
    /// `intersect2_view` states.
    pub fn intersect(a: &Csg, b: &Csg) -> (r: Result<Csg, CsgError>)
        requires
            solid2_wf(a@),
            solid2_wf(b@),
        ensures
            intersect2_view(a@, b@, DEFAULT_DEPTH as nat) is Some ==> r is Ok && r->Ok_0@
                == intersect2_view(a@, b@, DEFAULT_DEPTH as nat).unwrap(),
            intersect2_view(a@, b@, DEFAULT_DEPTH as nat) is None ==> r == Result::<
                Csg,
                CsgError,
            >::Err(CsgError::DepthExceeded),
            r is Ok ==> solid2_wf(r->Ok_0@),
    {
        let mut na = match BspNode::new(Option::Some(a.to_lines())) {
            Result::Ok(n) => n,
            Result::Err(e) => {
                return Result::Err(e);
            },
        };
        let mut nb = match BspNode::new(Option::Some(b.to_lines())) {
            Result::Ok(n) => n,
            Result::Err(e) => {
                return Result::Err(e);
            },
        };
        na.invert();
        nb.clip_to(&na);
        nb.invert();
        na.clip_to(&nb);
        nb.clip_to(&na);
        proof {
            lemma_all2_view_wf(nb@);
        }
        let extra = nb.all_lines();
        match na.build(extra, DEFAULT_DEPTH) {
            Result::Ok(()) => {},
            Result::Err(e) => {
                return Result::Err(e);
            },
        }
        na.invert();
        proof {
            lemma_all2_view_wf(na@);
        }
        let lines = na.all_lines();
        Result::Ok(Csg { lines })
    }

    /// The difference `a` minus `b`, by the exact protocol that
    /// `subtract2_view` states.
    pub fn subtract(a: &Csg, b: &Csg) -> (r: Result<Csg, CsgError>)
        requires
            solid2_wf(a@),
            solid2_wf(b@),
        ensures
            subtract2_view(a@, b@, DEFAULT_DEPTH as nat) is Some ==> r is Ok && r->Ok_0@
                == subtract2_view(a@, b@, DEFAULT_DEPTH as nat).unwrap(),
            subtract2_view(a@, b@, DEFAULT_DEPTH as nat) is None ==> r == Result::<
                Csg,
                CsgError,
            >::Err(CsgError::DepthExceeded),
            r is Ok ==> solid2_wf(r->Ok_0@),
    {
        let mut na = match BspNode::new(Option::Some(a.to_lines())) {
            Result::Ok(n) => n,
            Result::Err(e) => {
                return Result::Err(e);
            },
        };
        let mut nb = match BspNode::new(Option::Some(b.to_lines())) {
            Result::Ok(n) => n,
            Result::Err(e) => {
                return Result::Err(e);
            },
        };
        na.invert();
        na.clip_to(&nb);
        nb.clip_to(&na);
        nb.invert();
        nb.clip_to(&na);
        nb.invert();
        proof {
            lemma_all2_view_wf(nb@);
        }
        let extra = nb.all_lines();
        match na.build(extra, DEFAULT_DEPTH) {
            Result::Ok(()) => {},
            Result::Err(e) => {
                return Result::Err(e);
            },
        }
        na.invert();
        proof {
            lemma_all2_view_wf(na@);
        }
        let lines = na.all_lines();
        Result::Ok(Csg { lines })
    }
}

} // verus!
