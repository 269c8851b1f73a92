//! Oriented planes and the face-splitting primitive.

use crate::dim3::polygon::{poly_wf, Polygon, PolyView};
use crate::dim3::vector::{
    cross_spec, dot_spec, lemma_prod_le, normalize_coord_spec, vec_le, Vector,
};
use crate::dim3::vertex::{interpolate_spec, vertex_bounded, Vertex};
use crate::{Unit, COORD_LIMIT, EPSILON, SCALE, W_LIMIT};
use vstd::prelude::*;

verus! {

/// An oriented plane `n . p == w`, the normal held in fixed point with
/// magnitude about one (`SCALE` raw units).
#[derive(Clone, Copy, Debug, PartialEq, Eq, Structural)]
pub struct Plane(pub Vector, pub Unit);

/// Bounded plane: unit-scaled normal, offset within range of bounded
/// points.
pub open spec fn plane_wf(p: Plane) -> bool {
    &&& vec_le(p.0, SCALE as int)
    &&& -(W_LIMIT as int) <= p.1 <= W_LIMIT as int
}

/// `flip` negates the normal and the offset.
pub open spec fn plane_flip_spec(p: Plane) -> Plane {
    Plane(Vector((-p.0.0) as i64, (-p.0.1) as i64, (-p.0.2) as i64), (-p.1) as i64)
}

/// The difference vector `b - a` of two bounded points.
pub open spec fn edge_diff(a: Vector, b: Vector) -> Vector {
    Vector((b.0 - a.0) as i64, (b.1 - a.1) as i64, (b.2 - a.2) as i64)
}

/// The plane through three points: normal from the cross product of the
/// two edges out of `v0`, scaled to unit length, offset from `v0`.
pub open spec fn from_points_spec(v0: Vector, v1: Vector, v2: Vector) -> Plane {
    let d1 = edge_diff(v0, v1);
    let d2 = edge_diff(v0, v2);
    let c = cross_spec(d1, d2);
    let craw = Vector(c.0 as i64, c.1 as i64, c.2 as i64);
    let n = Vector(
        normalize_coord_spec(craw.0 as int, craw) as i64,
        normalize_coord_spec(craw.1 as int, craw) as i64,
        normalize_coord_spec(craw.2 as int, craw) as i64,
    );
    Plane(n, dot_spec(n, v0) as i64)
}

/// Signed raw offset of a point from a plane.
pub open spec fn plane_offset(pl: Plane, p: Vector) -> int {
    dot_spec(pl.0, p) - pl.1
}

/// Which side of a plane something lies on. `Spanning` is the join of
/// `Front` and `Back`; a single vertex is never `Spanning`.
#[derive(Clone, Copy, Debug, PartialEq, Eq, Structural)]
pub enum Location {
    Coplanar,
    Front,
    Back,
    Spanning,
}

/// Join of two classifications; `Coplanar` is the identity and mixing
/// `Front` with `Back` gives `Spanning`.
pub open spec fn loc_join_spec(a: Location, b: Location) -> Location {
    if a == b {
        a
    } else if a == Location::Coplanar {
        b
    } else if b == Location::Coplanar {
        a
    } else {
        Location::Spanning
    }
}

/// Classification of one point against a plane, by its raw offset
/// against the tolerance.
pub open spec fn classify_spec(pl: Plane, p: Vector) -> Location {
    let t = plane_offset(pl, p);
    if t < -(EPSILON as int) {
        Location::Back
    } else if t > EPSILON as int {
        Location::Front
    } else {
        Location::Coplanar
    }
}

/// Join of the classifications of all vertices of a face.
pub open spec fn poly_type_spec(pl: Plane, vs: Seq<crate::dim3::vertex::Vertex>) -> Location
    decreases vs.len(),
{
    if vs.len() == 0 {
        Location::Coplanar
    } else {
        loc_join_spec(poly_type_spec(pl, vs.drop_last()), classify_spec(pl, vs.last().position))
    }
}

impl Plane {
    pub fn from_points(v0: Vector, v1: Vector, v2: Vector) -> (r: Plane)
        requires
            vec_le(v0, COORD_LIMIT as int),
            vec_le(v1, COORD_LIMIT as int),
            vec_le(v2, COORD_LIMIT as int),
            cross_spec(edge_diff(v0, v1), edge_diff(v0, v2)) != ((0int, 0int, 0int)),
        ensures
            r == from_points_spec(v0, v1, v2),
            plane_wf(r),
    {
        let d1 = v1.minus(v0);
        let d2 = v2.minus(v0);
        let c = d1.cross(d2);
        proof {
            lemma_prod_le(d1.1 as int, d2.2 as int, 0x2000000, 0x2000000);
            lemma_prod_le(d1.2 as int, d2.1 as int, 0x2000000, 0x2000000);
            lemma_prod_le(d1.2 as int, d2.0 as int, 0x2000000, 0x2000000);
            lemma_prod_le(d1.0 as int, d2.2 as int, 0x2000000, 0x2000000);
            lemma_prod_le(d1.0 as int, d2.1 as int, 0x2000000, 0x2000000);
            lemma_prod_le(d1.1 as int, d2.0 as int, 0x2000000, 0x2000000);
        }
        let n = c.normalize();
        proof {
            lemma_prod_le(n.0 as int, v0.0 as int, SCALE as int, COORD_LIMIT as int);
            lemma_prod_le(n.1 as int, v0.1 as int, SCALE as int, COORD_LIMIT as int);
            lemma_prod_le(n.2 as int, v0.2 as int, SCALE as int, COORD_LIMIT as int);
        }
        let w = n.dot(v0);
        Plane(n, w)
    }

    pub fn flip(&self) -> (r: Plane)
        requires
            plane_wf(*self),
        ensures
            r == plane_flip_spec(*self),
            plane_wf(r),
    {
        Plane(self.0.negate(), -self.1)
    }

    #[inline]
    pub fn normal(&self) -> (r: Vector)
        ensures
            r == self.0,
    {
        self.0
    }

    #[inline]
    pub fn w(&self) -> (r: Unit)
        ensures
            r == self.1,
    {
        self.1
    }

    /// The signed raw offset `n . p - w` of a point from this plane.
    pub fn offset_of(&self, p: Vector) -> (r: Unit)
        requires
            plane_wf(*self),
            vec_le(p, COORD_LIMIT as int),
        ensures
            r == plane_offset(*self, p),
    {
        proof {
            lemma_prod_le(self.0.0 as int, p.0 as int, SCALE as int, COORD_LIMIT as int);
            lemma_prod_le(self.0.1 as int, p.1 as int, SCALE as int, COORD_LIMIT as int);
            lemma_prod_le(self.0.2 as int, p.2 as int, SCALE as int, COORD_LIMIT as int);
        }
        let d = self.0.dot(p);
        d - self.1
    }

    /// Split `poly` by this plane and append the pieces to the four
    /// lists, as `split_polygon_spec` states: coplanar faces to one
    /// coplanar list by the orientation of their own normal, one-sided
    /// faces whole to `front` or `back`, spanning faces as one
    /// fragment per side, both fragments kept on the parent's plane.
    #[verifier::rlimit(100)]
    pub fn split_polygon(
        &self,
        poly: &Polygon,
        coplanar_front: &mut Vec<Polygon>,
        coplanar_back: &mut Vec<Polygon>,
        front: &mut Vec<Polygon>,
        back: &mut Vec<Polygon>,
    )
        requires
            plane_wf(*self),
            poly_wf(poly@),
        ensures
            views_of(final(coplanar_front)@) == views_of(old(coplanar_front)@)
                + split_polygon_spec(*self, poly@).coplanar_front,
            views_of(final(coplanar_back)@) == views_of(old(coplanar_back)@)
                + split_polygon_spec(*self, poly@).coplanar_back,
            views_of(final(front)@) == views_of(old(front)@) + split_polygon_spec(
                *self,
                poly@,
            ).front,
            views_of(final(back)@) == views_of(old(back)@) + split_polygon_spec(*self, poly@).back,
            forall|k: int|
                old(coplanar_front)@.len() <= k < final(coplanar_front)@.len() ==> poly_wf(
                    (#[trigger] final(coplanar_front)@[k])@,
                ),
            forall|k: int|
                old(coplanar_back)@.len() <= k < final(coplanar_back)@.len() ==> poly_wf(
                    (#[trigger] final(coplanar_back)@[k])@,
                ),
            forall|k: int|
                old(front)@.len() <= k < final(front)@.len() ==> poly_wf(
                    (#[trigger] final(front)@[k])@,
                ),
            forall|k: int|
                old(back)@.len() <= k < final(back)@.len() ==> poly_wf(
                    (#[trigger] final(back)@[k])@,
                ),
    {
        let n = poly.vertices.len();
        let mut locs: Vec<Location> = Vec::new();
        let mut ptype = Location::Coplanar;
        let mut i: usize = 0;
        proof {
            assert(poly@.vertices.take(0) =~= Seq::<Vertex>::empty());
        }
        while i < n
            invariant
                plane_wf(*self),
                poly_wf(poly@),
                0 <= i <= n,
                n == poly@.vertices.len(),
                locs@.len() == i,
                forall|k: int|
                    0 <= k < i ==> #[trigger] locs@[k] == classify_spec(
                        *self,
                        poly@.vertices[k].position,
                    ),
                ptype == poly_type_spec(*self, poly@.vertices.take(i as int)),
            decreases n - i,
        {
            let loc = self.classify(poly.vertices[i].position);
            ptype = loc_join(ptype, loc);
            locs.push(loc);
            proof {
                assert(poly@.vertices.take(i as int + 1).drop_last() =~= poly@.vertices.take(
                    i as int,
                ));
                assert(poly@.vertices.take(i as int + 1).last() == poly@.vertices[i as int]);
            }
            i += 1;
        }
        proof {
            assert(poly@.vertices.take(n as int) =~= poly@.vertices);
        }
        let ghost delta = split_polygon_spec(*self, poly@);
        if ptype == Location::Coplanar {
            proof {
                lemma_prod_le(self.0.0 as int, poly.plane.0.0 as int, SCALE as int, SCALE as int);
                lemma_prod_le(self.0.1 as int, poly.plane.0.1 as int, SCALE as int, SCALE as int);
                lemma_prod_le(self.0.2 as int, poly.plane.0.2 as int, SCALE as int, SCALE as int);
            }
            let d = self.0.dot(poly.plane.0);
            if d > 0 {
                coplanar_front.push(poly.duplicate());
                proof {
                    assert(views_of(coplanar_front@) =~= views_of(old(coplanar_front)@)
                        + delta.coplanar_front);
                }
            } else {
                coplanar_back.push(poly.duplicate());
                proof {
                    assert(views_of(coplanar_back@) =~= views_of(old(coplanar_back)@)
                        + delta.coplanar_back);
                }
            }
        } else if ptype == Location::Front {
            front.push(poly.duplicate());
            proof {
                assert(views_of(front@) =~= views_of(old(front)@) + delta.front);
            }
        } else if ptype == Location::Back {
            back.push(poly.duplicate());
            proof {
                assert(views_of(back@) =~= views_of(old(back)@) + delta.back);
            }
        } else {
            let mut inner_front: Vec<Vertex> = Vec::new();
            let mut inner_back: Vec<Vertex> = Vec::new();
            let mut i: usize = 0;
            while i < n
                invariant
                    plane_wf(*self),
                    poly_wf(poly@),
                    0 <= i <= n,
                    n == poly@.vertices.len(),
                    locs@.len() == n,
                    forall|k: int|
                        0 <= k < n ==> #[trigger] locs@[k] == classify_spec(
                            *self,
                            poly@.vertices[k].position,
                        ),
                    inner_front@ == frag_prefix_spec(*self, poly@.vertices, i as int, true),
                    inner_back@ == frag_prefix_spec(*self, poly@.vertices, i as int, false),
                    forall|k: int|
                        0 <= k < inner_front@.len() ==> vertex_bounded(#[trigger] inner_front@[k]),
                    forall|k: int|
                        0 <= k < inner_back@.len() ==> vertex_bounded(#[trigger] inner_back@[k]),
                decreases n - i,
            {
                let j = (i + 1) % n;
                let ti = locs[i];
                let tj = locs[j];
                let vi = poly.vertices[i];
                let vj = poly.vertices[j];
                if ti != Location::Back {
                    inner_front.push(vi);
                }
                if ti != Location::Front {
                    inner_back.push(vi);
                }
                if loc_join(ti, tj) == Location::Spanning {
                    proof {
                        lemma_offset_bounded(*self, vi.position);
                        lemma_offset_bounded(*self, vj.position);
                    }
                    let ti_raw = self.offset_of(vi.position);
                    let tj_raw = self.offset_of(vj.position);
                    let num = if ti == Location::Back {
                        -ti_raw
                    } else {
                        ti_raw
                    };
                    let den = if ti == Location::Back {
                        tj_raw - ti_raw
                    } else {
                        ti_raw - tj_raw
                    };
                    let v = vi.interpolate(vj, num, den);
                    inner_front.push(v);
                    inner_back.push(v);
                }
                proof {
                    assert(inner_front@ =~= frag_prefix_spec(
                        *self,
                        poly@.vertices,
                        i as int + 1,
                        true,
                    ));
                    assert(inner_back@ =~= frag_prefix_spec(
                        *self,
                        poly@.vertices,
                        i as int + 1,
                        false,
                    ));
                }
                i += 1;
            }
            if inner_front.len() >= 3 {
                let frag = Polygon { vertices: inner_front, plane: poly.plane };
                front.push(frag);
                proof {
                    assert(views_of(front@) =~= views_of(old(front)@) + delta.front);
                }
            }
            if inner_back.len() >= 3 {
                let frag = Polygon { vertices: inner_back, plane: poly.plane };
                back.push(frag);
                proof {
                    assert(views_of(back@) =~= views_of(old(back)@) + delta.back);
                }
            }
        }
        proof {
            assert(views_of(coplanar_front@) =~= views_of(old(coplanar_front)@)
                + delta.coplanar_front);
            assert(views_of(coplanar_back@) =~= views_of(old(coplanar_back)@)
                + delta.coplanar_back);
            assert(views_of(front@) =~= views_of(old(front)@) + delta.front);
            assert(views_of(back@) =~= views_of(old(back)@) + delta.back);
        }
    }

    /// Classify one point against this plane.
    pub fn classify(&self, p: Vector) -> (r: Location)
        requires
            plane_wf(*self),
            vec_le(p, COORD_LIMIT as int),
        ensures
            r == classify_spec(*self, p),
    {
        let t = self.offset_of(p);
        if t < -EPSILON {
            Location::Back
        } else if t > EPSILON {
            Location::Front
        } else {
            Location::Coplanar
        }
    }
}

/// Numerator of the crossing fraction on the edge from `a` to `b`,
/// arranged so that numerator and denominator are both positive when
/// the edge truly spans the plane.
pub open spec fn crossing_num_spec(pl: Plane, a: Vertex) -> int {
    if classify_spec(pl, a.position) == Location::Back {
        -plane_offset(pl, a.position)
    } else {
        plane_offset(pl, a.position)
    }
}

/// Denominator of the crossing fraction on the edge from `a` to `b`.
pub open spec fn crossing_den_spec(pl: Plane, a: Vertex, b: Vertex) -> int {
    if classify_spec(pl, a.position) == Location::Back {
        plane_offset(pl, b.position) - plane_offset(pl, a.position)
    } else {
        plane_offset(pl, a.position) - plane_offset(pl, b.position)
    }
}

/// The interpolated vertex where the edge from `a` to `b` crosses `pl`.
pub open spec fn crossing_vertex_spec(pl: Plane, a: Vertex, b: Vertex) -> Vertex {
    interpolate_spec(a, b, crossing_num_spec(pl, a), crossing_den_spec(pl, a, b))
}

/// Vertices corner `i` contributes to the front (or back) fragment of
/// a spanning face: the corner itself when it is not strictly on the
/// other side, then the crossing point when the edge to the next
/// corner spans the plane.
pub open spec fn frag_step_spec(pl: Plane, vs: Seq<Vertex>, i: int, front: bool) -> Seq<Vertex> {
    let n = vs.len() as int;
    let vi = vs[i];
    let vj = vs[(i + 1) % n];
    let ti = classify_spec(pl, vi.position);
    let tj = classify_spec(pl, vj.position);
    let keep = if front {
        ti != Location::Back
    } else {
        ti != Location::Front
    };
    let base: Seq<Vertex> = if keep {
        seq![vi]
    } else {
        Seq::empty()
    };
    if loc_join_spec(ti, tj) == Location::Spanning {
        base + seq![crossing_vertex_spec(pl, vi, vj)]
    } else {
        base
    }
}

pub open spec fn frag_prefix_spec(pl: Plane, vs: Seq<Vertex>, i: int, front: bool) -> Seq<Vertex>
    decreases i,
{
    if i <= 0 {
        Seq::empty()
    } else {
        frag_prefix_spec(pl, vs, i - 1, front) + frag_step_spec(pl, vs, i - 1, front)
    }
}

/// The whole vertex list of the front (or back) fragment of a spanning
/// face.
pub open spec fn frag_spec(pl: Plane, vs: Seq<Vertex>, front: bool) -> Seq<Vertex> {
    frag_prefix_spec(pl, vs, vs.len() as int, front)
}

/// What `split_polygon` appends to each of its four output lists.
#[verifier::ext_equal]
pub struct SplitDelta {
    pub coplanar_front: Seq<PolyView>,
    pub coplanar_back: Seq<PolyView>,
    pub front: Seq<PolyView>,
    pub back: Seq<PolyView>,
}

/// The complete splitting rule: a face whose vertices all touch the
/// plane goes to one coplanar list by the orientation of its own
/// normal; a face entirely on one side goes there whole; a spanning
/// face leaves one fragment for each side that keeps at least three
/// vertices, both on the parent's plane.
pub open spec fn split_polygon_spec(pl: Plane, p: PolyView) -> SplitDelta {
    let t = poly_type_spec(pl, p.vertices);
    let none = Seq::<PolyView>::empty();
    if t == Location::Coplanar {
        if dot_spec(pl.0, p.plane.0) > 0 {
            SplitDelta { coplanar_front: seq![p], coplanar_back: none, front: none, back: none }
        } else {
            SplitDelta { coplanar_front: none, coplanar_back: seq![p], front: none, back: none }
        }
    } else if t == Location::Front {
        SplitDelta { coplanar_front: none, coplanar_back: none, front: seq![p], back: none }
    } else if t == Location::Back {
        SplitDelta { coplanar_front: none, coplanar_back: none, front: none, back: seq![p] }
    } else {
        let ff = frag_spec(pl, p.vertices, true);
        let bf = frag_spec(pl, p.vertices, false);
        SplitDelta {
            coplanar_front: none,
            coplanar_back: none,
            front: if ff.len() >= 3 {
                seq![PolyView { vertices: ff, plane: p.plane }]
            } else {
                none
            },
            back: if bf.len() >= 3 {
                seq![PolyView { vertices: bf, plane: p.plane }]
            } else {
                none
            },
        }
    }
}

/// The mathematical values of a list of polygons.
pub open spec fn views_of(s: Seq<Polygon>) -> Seq<PolyView> {
    Seq::new(s.len(), |i: int| s[i]@)
}

pub proof fn lemma_views_push(s: Seq<Polygon>, p: Polygon)
    ensures
        views_of(s.push(p)) == views_of(s).push(p@),
{
    assert(views_of(s.push(p)) =~= views_of(s).push(p@));
}

pub proof fn lemma_views_append(a: Seq<Polygon>, b: Seq<Polygon>)
    ensures
        views_of(a + b) == views_of(a) + views_of(b),
{
    assert(views_of(a + b) =~= views_of(a) + views_of(b));
}

/// Offsets of bounded points from bounded planes stay well inside
/// `i64`.
pub proof fn lemma_offset_bounded(pl: Plane, p: Vector)
    requires
        plane_wf(pl),
        vec_le(p, COORD_LIMIT as int),
    ensures
        -2 * (W_LIMIT as int) <= plane_offset(pl, p) <= 2 * (W_LIMIT as int),
{
    lemma_prod_le(pl.0.0 as int, p.0 as int, SCALE as int, COORD_LIMIT as int);
    lemma_prod_le(pl.0.1 as int, p.1 as int, SCALE as int, COORD_LIMIT as int);
    lemma_prod_le(pl.0.2 as int, p.2 as int, SCALE as int, COORD_LIMIT as int);
}

/// Coplanar dispatch: a face all of whose corners touch the plane
/// goes whole to the coplanar-front list exactly when its own normal
/// agrees with the splitter's, and whole to coplanar-back otherwise;
/// nothing reaches the side lists.
pub proof fn lemma_coplanar_dispatch(pl: Plane, p: PolyView)
    requires
        poly_type_spec(pl, p.vertices) == Location::Coplanar,
    ensures
        dot_spec(pl.0, p.plane.0) > 0 ==> split_polygon_spec(pl, p) == (SplitDelta {
            coplanar_front: seq![p],
            coplanar_back: Seq::<PolyView>::empty(),
            front: Seq::<PolyView>::empty(),
            back: Seq::<PolyView>::empty(),
        }),
        dot_spec(pl.0, p.plane.0) <= 0 ==> split_polygon_spec(pl, p) == (SplitDelta {
            coplanar_front: Seq::<PolyView>::empty(),
            coplanar_back: seq![p],
            front: Seq::<PolyView>::empty(),
            back: Seq::<PolyView>::empty(),
        }),
{
}

/// Flipping a bounded plane twice restores it bit-exactly.
pub proof fn lemma_plane_flip_involution(p: Plane)
    requires
        plane_wf(p),
    ensures
        plane_flip_spec(plane_flip_spec(p)) == p,
{
}

fn loc_join(a: Location, b: Location) -> (r: Location)
    ensures
        r == loc_join_spec(a, b),
{
    if a == b {
        a
    } else if a == Location::Coplanar {
        b
    } else if b == Location::Coplanar {
        a
    } else {
        Location::Spanning
    }
}

} // verus!
