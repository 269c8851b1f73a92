//! The CSG facade: a solid is a face list, and the boolean operations
//! evaluate the Thabet/Naylor-style clip protocol over two BSP trees.

use crate::dim3::bsp_node::{
    all_view, build_view, clip_to_view, duplicate_polys, empty_node_view, invert_view,
    lemma_all_view_wf, polys_wf, BspNode,
};
use crate::dim3::plane::{edge_diff, from_points_spec, views_of};
use crate::dim3::polygon::{poly_wf, Polygon, PolyView};
use crate::dim3::vector::{cross_spec, vec_le, Vector};
use crate::dim3::vertex::Vertex;
use crate::{CsgError, COORD_LIMIT, DEFAULT_DEPTH, SCALE};
use vstd::prelude::*;

verus! {

/// A solid: the face list of its closed boundary.
pub struct Csg {
    pub polygons: Vec<Polygon>,
}

impl View for Csg {
    type V = Seq<PolyView>;

    open spec fn view(&self) -> Seq<PolyView> {
        views_of(self.polygons@)
    }
}

/// Every face of the solid is well-formed.
pub open spec fn solid_wf(s: Seq<PolyView>) -> bool {
    polys_wf(s)
}

/// The union protocol: clip each tree to the other, remove B's faces
/// coplanar with A's by the double inversion, then merge B into A.
pub open spec fn union_view(a: Seq<PolyView>, b: Seq<PolyView>, fuel: nat) -> Option<
    Seq<PolyView>,
> {
    match build_view(empty_node_view(), a, fuel) {
        Option::None => Option::None,
        Option::Some(na0) => match build_view(empty_node_view(), b, fuel) {
            Option::None => Option::None,
            Option::Some(nb0) => {
                let na1 = clip_to_view(na0, nb0);
                let nb1 = clip_to_view(nb0, na1);
                let nb2 = invert_view(nb1);
                let nb3 = clip_to_view(nb2, na1);
                let nb4 = invert_view(nb3);
                match build_view(na1, all_view(nb4), fuel) {
                    Option::None => Option::None,
                    Option::Some(na2) => Option::Some(all_view(na2)),
                }
            },
        },
    }
}

/// The intersection protocol.
pub open spec fn intersect_view(a: Seq<PolyView>, b: Seq<PolyView>, fuel: nat) -> Option<
    Seq<PolyView>,
> {
    match build_view(empty_node_view(), a, fuel) {
        Option::None => Option::None,
        Option::Some(na0) => match build_view(empty_node_view(), b, fuel) {
            Option::None => Option::None,
            Option::Some(nb0) => {
                let na1 = invert_view(na0);
                let nb1 = clip_to_view(nb0, na1);
                let nb2 = invert_view(nb1);
                let na2 = clip_to_view(na1, nb2);
                let nb3 = clip_to_view(nb2, na2);
                match build_view(na2, all_view(nb3), fuel) {
                    Option::None => Option::None,
                    Option::Some(na3) => Option::Some(all_view(invert_view(na3))),
                }
            },
        },
    }
}

/// The difference protocol, `a` minus `b`.
pub open spec fn subtract_view(a: Seq<PolyView>, b: Seq<PolyView>, fuel: nat) -> Option<
    Seq<PolyView>,
> {
    match build_view(empty_node_view(), a, fuel) {
        Option::None => Option::None,
        Option::Some(na0) => match build_view(empty_node_view(), b, fuel) {
            Option::None => Option::None,
            Option::Some(nb0) => {
                let na1 = invert_view(na0);
                let na2 = clip_to_view(na1, nb0);
                let nb1 = clip_to_view(nb0, na2);
                let nb2 = invert_view(nb1);
                let nb3 = clip_to_view(nb2, na2);
                let nb4 = invert_view(nb3);
                match build_view(na2, all_view(nb4), fuel) {
                    Option::None => Option::None,
                    Option::Some(na3) => Option::Some(all_view(invert_view(na3))),
                }
            },
        },
    }
}

/// The lower corner of a cube of the given extents.
pub open spec fn cube_min_spec(dimensions: Vector, centered: bool) -> Vector {
    if centered {
        Vector((-(dimensions.0 / 2)) as i64, (-(dimensions.1 / 2)) as i64, (-(dimensions.2 / 2)) as i64)
    } else {
        Vector(0, 0, 0)
    }
}

/// One outward-facing quad of a cube: four corners sharing an axis
/// plane, every vertex normal along that axis.
pub open spec fn quad_view(p0: Vector, p1: Vector, p2: Vector, p3: Vector, nrm: Vector) -> PolyView {
    PolyView {
        vertices: seq![
            Vertex { position: p0, normal: nrm },
            Vertex { position: p1, normal: nrm },
            Vertex { position: p2, normal: nrm },
            Vertex { position: p3, normal: nrm },
        ],
        plane: from_points_spec(p0, p1, p2),
    }
}

/// The six outward quads of an axis-aligned cuboid of the given
/// extents, corner at the origin or centered on it.
pub open spec fn cube_view(dimensions: Vector, centered: bool) -> Seq<PolyView> {
    let mn = cube_min_spec(dimensions, centered);
    let mx = Vector(
        (mn.0 + dimensions.0) as i64,
        (mn.1 + dimensions.1) as i64,
        (mn.2 + dimensions.2) as i64,
    );
    let v000 = Vector(mn.0, mn.1, mn.2);
    let v100 = Vector(mx.0, mn.1, mn.2);
    let v010 = Vector(mn.0, mx.1, mn.2);
    let v110 = Vector(mx.0, mx.1, mn.2);
    let v001 = Vector(mn.0, mn.1, mx.2);
    let v101 = Vector(mx.0, mn.1, mx.2);
    let v011 = Vector(mn.0, mx.1, mx.2);
    let v111 = Vector(mx.0, mx.1, mx.2);
    seq![
        quad_view(v000, v001, v011, v010, Vector((-SCALE) as i64, 0, 0)),
        quad_view(v100, v110, v111, v101, Vector(SCALE, 0, 0)),
        quad_view(v000, v100, v101, v001, Vector(0, (-SCALE) as i64, 0)),
        quad_view(v010, v011, v111, v110, Vector(0, SCALE, 0)),
        quad_view(v000, v010, v110, v100, Vector(0, 0, (-SCALE) as i64)),
        quad_view(v001, v101, v111, v011, Vector(0, 0, SCALE)),
    ]
}

/// Build one outward quad with a shared vertex normal.
fn quad(p0: Vector, p1: Vector, p2: Vector, p3: Vector, nrm: Vector) -> (r: Polygon)
    requires
        vec_le(p0, COORD_LIMIT as int),
        vec_le(p1, COORD_LIMIT as int),
        vec_le(p2, COORD_LIMIT as int),
        vec_le(p3, COORD_LIMIT as int),
        vec_le(nrm, COORD_LIMIT as int),
        cross_spec(edge_diff(p0, p1), edge_diff(p0, p2)) != ((0int, 0int, 0int)),
    ensures
        r@ == quad_view(p0, p1, p2, p3, nrm),
        poly_wf(r@),
{
    let mut vs: Vec<Vertex> = Vec::new();
    vs.push(Vertex::new(p0, nrm));
    vs.push(Vertex::new(p1, nrm));
    vs.push(Vertex::new(p2, nrm));
    vs.push(Vertex::new(p3, nrm));
    proof {
        assert(vs@ =~= quad_view(p0, p1, p2, p3, nrm).vertices);
    }
    let r = Polygon::new(vs);
    proof {
        assert(r@ =~= quad_view(p0, p1, p2, p3, nrm));
    }
    r
}

impl Csg {
    /// An axis-aligned cuboid of the given extents: six outward quads
    /// with corners at the origin and `dimensions`, or centered on the
    /// origin.
    pub fn cube(dimensions: Vector, centered: bool) -> (r: Csg)
        requires
            0 < dimensions.0 <= COORD_LIMIT,
            0 < dimensions.1 <= COORD_LIMIT,
            0 < dimensions.2 <= COORD_LIMIT,
        ensures
            r@ == cube_view(dimensions, centered),
            r@.len() == 6,
            solid_wf(r@),
    {
        let mn = if centered {
            Vector(-(dimensions.0 / 2), -(dimensions.1 / 2), -(dimensions.2 / 2))
        } else {
            Vector(0, 0, 0)
        };
        let mx = Vector(mn.0 + dimensions.0, mn.1 + dimensions.1, mn.2 + dimensions.2);
        proof {
            assert(mn == cube_min_spec(dimensions, centered));
            assert(mn.0 < mx.0 && mn.1 < mx.1 && mn.2 < mx.2);
        }
        let v000 = Vector(mn.0, mn.1, mn.2);
        let v100 = Vector(mx.0, mn.1, mn.2);
        let v010 = Vector(mn.0, mx.1, mn.2);
        let v110 = Vector(mx.0, mx.1, mn.2);
        let v001 = Vector(mn.0, mn.1, mx.2);
        let v101 = Vector(mx.0, mn.1, mx.2);
        let v011 = Vector(mn.0, mx.1, mx.2);
        let v111 = Vector(mx.0, mx.1, mx.2);
        proof {
            let dx = mx.0 - mn.0;
            let dy = mx.1 - mn.1;
            let dz = mx.2 - mn.2;
            assert((mx.0 - mn.0) as i64 == dx);
            assert((mx.1 - mn.1) as i64 == dy);
            assert((mx.2 - mn.2) as i64 == dz);
            assert(dx * dy != 0 && dy * dz != 0 && dx * dz != 0 && dy * dx != 0 && dz * dy != 0
                && dz * dx != 0) by (nonlinear_arith)
                requires
                    dx > 0,
                    dy > 0,
                    dz > 0,
            ;
            let e1 = edge_diff(v000, v001);
            let e2 = edge_diff(v000, v011);
            assert(e1.1 == 0);
            assert(e1.2 == dz);
            assert(e2.1 == dy);
            assert(cross_spec(e1, e2).0 == e1.1 * e2.2 - e1.2 * e2.1);
            assert(e1.1 * e2.2 == 0) by (nonlinear_arith)
                requires
                    e1.1 == 0,
            ;
            assert(e1.2 * e2.1 == dz * dy) by (nonlinear_arith)
                requires
                    e1.2 == dz,
                    e2.1 == dy,
            ;
            assert(cross_spec(e1, e2).0 != 0);
            assert(cross_spec(edge_diff(v000, v001), edge_diff(v000, v011)) != ((0int, 0int, 0int)));
            assert(cross_spec(edge_diff(v100, v110), edge_diff(v100, v111)) != ((0int, 0int, 0int)));
            assert(cross_spec(edge_diff(v000, v100), edge_diff(v000, v101)) != ((0int, 0int, 0int)));
            assert(cross_spec(edge_diff(v010, v011), edge_diff(v010, v111)) != ((0int, 0int, 0int)));
            assert(cross_spec(edge_diff(v000, v010), edge_diff(v000, v110)) != ((0int, 0int, 0int)));
            assert(cross_spec(edge_diff(v001, v101), edge_diff(v001, v111)) != ((0int, 0int, 0int)));
        }
        let mut polys: Vec<Polygon> = Vec::new();
        polys.push(quad(v000, v001, v011, v010, Vector(-SCALE, 0, 0)));
        polys.push(quad(v100, v110, v111, v101, Vector(SCALE, 0, 0)));
        polys.push(quad(v000, v100, v101, v001, Vector(0, -SCALE, 0)));
        polys.push(quad(v010, v011, v111, v110, Vector(0, SCALE, 0)));
        polys.push(quad(v000, v010, v110, v100, Vector(0, 0, -SCALE)));
        polys.push(quad(v001, v101, v111, v011, Vector(0, 0, SCALE)));
        let r = Csg { polygons: polys };
        proof {
            assert(r@ =~= cube_view(dimensions, centered));
        }
        r
    }

    /// The empty solid.
    pub fn new() -> (r: Csg)
        ensures
            r@ == Seq::<PolyView>::empty(),
            solid_wf(r@),
    {
        let r = Csg { polygons: Vec::new() };
        proof {
            assert(r@ =~= Seq::<PolyView>::empty());
        }
        r
    }

    /// Wrap a face list as a solid.
    pub fn from_polygons(polygons: Vec<Polygon>) -> (r: Csg)
        ensures
            r@ == views_of(polygons@),
    {
        Csg { polygons }
    }

    /// The boundary's face list, copied out.
    pub fn to_polygons(&self) -> (r: Vec<Polygon>)
        ensures
            views_of(r@) == self@,
    {
        duplicate_polys(&self.polygons)
    }

    /// The union of two solids, evaluated by the exact protocol that
    /// `union_view` states; fails only when a BSP tree would exceed
    /// the default depth ceiling.
    pub fn union(a: &Csg, b: &Csg) -> (r: Result<Csg, CsgError>)
        requires
            solid_wf(a@),
            solid_wf(b@),
        ensures
            union_view(a@, b@, DEFAULT_DEPTH as nat) is Some ==> r is Ok && r->Ok_0@
                == union_view(a@, b@, DEFAULT_DEPTH as nat).unwrap(),
            union_view(a@, b@, DEFAULT_DEPTH as nat) is None ==> r == Result::<Csg, CsgError>::Err(
                CsgError::DepthExceeded,
            ),
            r is Ok ==> solid_wf(r->Ok_0@),
    {
        let mut na = match BspNode::new(Option::Some(a.to_polygons())) {
            Result::Ok(n) => n,
            Result::Err(e) => {
                return Result::Err(e);
            },
        };
        let mut nb = match BspNode::new(Option::Some(b.to_polygons())) {
            Result::Ok(n) => n,
            Result::Err(e) => {
                return Result::Err(e);
            },
        };
        na.clip_to(&nb);
        nb.clip_to(&na);
        nb.invert();
        nb.clip_to(&na);
        nb.invert();
        proof {
            lemma_all_view_wf(nb@);
        }
        let extra = nb.all_polygons();
        match na.build(extra, DEFAULT_DEPTH) {
            Result::Ok(()) => {},
            Result::Err(e) => {
                return Result::Err(e);
            },
        }
        proof {
            lemma_all_view_wf(na@);
        }
        let polys = na.all_polygons();
        Result::Ok(Csg { polygons: polys })
    }

    /// The intersection of two solids, by the exact protocol that
    /// `intersect_view` states.
    pub fn intersect(a: &Csg, b: &Csg) -> (r: Result<Csg, CsgError>)
        requires
            solid_wf(a@),
            solid_wf(b@),
        ensures
            intersect_view(a@, b@, DEFAULT_DEPTH as nat) is Some ==> r is Ok && r->Ok_0@
                == intersect_view(a@, b@, DEFAULT_DEPTH as nat).unwrap(),
            intersect_view(a@, b@, DEFAULT_DEPTH as nat) is None ==> r == Result::<
                Csg,
                CsgError,
            >::Err(CsgError::DepthExceeded),
            r is Ok ==> solid_wf(r->Ok_0@),
    {
        let mut na = match BspNode::new(Option::Some(a.to_polygons())) {
            Result::Ok(n) => n,
            Result::Err(e) => {
                return Result::Err(e);
            },
        };
        let mut nb = match BspNode::new(Option::Some(b.to_polygons())) {
            Result::Ok(n) => n,
            Result::Err(e) => {
                return Result::Err(e);
            },
        };
        na.invert();
        nb.clip_to(&na);
        nb.invert();
        na.clip_to(&nb);
        nb.clip_to(&na);
        proof {
            lemma_all_view_wf(nb@);
        }
        let extra = nb.all_polygons();
        match na.build(extra, DEFAULT_DEPTH) {
            Result::Ok(()) => {},
            Result::Err(e) => {
                return Result::Err(e);
            },
        }
        na.invert();
        proof {
            lemma_all_view_wf(na@);
        }
        let polys = na.all_polygons();
        Result::Ok(Csg { polygons: polys })
    }

    /// The difference `a` minus `b`, by the exact protocol that
    /// `subtract_view` states.
    pub fn subtract(a: &Csg, b: &Csg) -> (r: Result<Csg, CsgError>)
        requires
            solid_wf(a@),
            solid_wf(b@),
        ensures
            subtract_view(a@, b@, DEFAULT_DEPTH as nat) is Some ==> r is Ok && r->Ok_0@
                == subtract_view(a@, b@, DEFAULT_DEPTH as nat).unwrap(),
            subtract_view(a@, b@, DEFAULT_DEPTH as nat) is None ==> r == Result::<
                Csg,
                CsgError,
            >::Err(CsgError::DepthExceeded),
            r is Ok ==> solid_wf(r->Ok_0@),
    {
        let mut na = match BspNode::new(Option::Some(a.to_polygons())) {
            Result::Ok(n) => n,
            Result::Err(e) => {
                return Result::Err(e);
            },
        };
        let mut nb = match BspNode::new(Option::Some(b.to_polygons())) {
            Result::Ok(n) => n,
            Result::Err(e) => {
                return Result::Err(e);
            },
        };
        na.invert();
        na.clip_to(&nb);
        nb.clip_to(&na);
        nb.invert();
        nb.clip_to(&na);
        nb.invert();
        proof {
            lemma_all_view_wf(nb@);
        }
        let extra = nb.all_polygons();
        match na.build(extra, DEFAULT_DEPTH) {
            Result::Ok(()) => {},
            Result::Err(e) => {
                return Result::Err(e);
            },
        }
        na.invert();
        proof {
            lemma_all_view_wf(na@);
        }
        let polys = na.all_polygons();
        Result::Ok(Csg { polygons: polys })
    }
}

} // verus!
