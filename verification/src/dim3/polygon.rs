//! Polygonal faces: at least three ordered vertices on a common plane,
//! with the plane cached beside them.

use crate::dim3::plane::{edge_diff, plane_flip_spec, plane_offset, plane_wf, Plane};
use crate::dim3::vector::{cross_spec, vec_le, Vector};
use crate::dim3::vertex::{vertex_bounded, vertex_flip_spec, Vertex};
use crate::{CsgError, COORD_LIMIT, EPSILON};
use vstd::prelude::*;

verus! {

/// A polygon: ordered vertices (outward winding) and the cached plane
/// they lie on.
#[derive(Clone, Debug, PartialEq)]
pub struct Polygon {
    pub vertices: Vec<Vertex>,
    pub plane: Plane,
}

/// The mathematical value of a polygon: its vertex sequence and plane.
#[verifier::ext_equal]
pub struct PolyView {
    pub vertices: Seq<Vertex>,
    pub plane: Plane,
}

impl View for Polygon {
    type V = PolyView;

    open spec fn view(&self) -> PolyView {
        PolyView { vertices: self.vertices@, plane: self.plane }
    }
}

impl DeepView for Polygon {
    type V = PolyView;

    open spec fn deep_view(&self) -> PolyView {
        self.view()
    }
}

/// Well-formedness: enough vertices, every coordinate bounded, and a
/// bounded plane.
pub open spec fn poly_wf(p: PolyView) -> bool {
    &&& p.vertices.len() >= 3
    &&& (forall|i: int| 0 <= i < p.vertices.len() ==> vertex_bounded(#[trigger] p.vertices[i]))
    &&& plane_wf(p.plane)
}

/// `flip` reverses the winding, flips each vertex and flips the plane.
pub open spec fn poly_flip_spec(p: PolyView) -> PolyView {
    PolyView {
        vertices: p.vertices.reverse().map_values(|v: Vertex| vertex_flip_spec(v)),
        plane: plane_flip_spec(p.plane),
    }
}

/// The first three vertices fail to span a plane: the two edge vectors
/// out of the first vertex are parallel (or the list is short).
pub open spec fn degenerate_spec(vs: Seq<Vertex>) -> bool {
    vs.len() < 3 || {
        let d1 = edge_diff(vs[0].position, vs[1].position);
        let d2 = edge_diff(vs[0].position, vs[2].position);
        cross_spec(d1, d2) == ((0int, 0int, 0int))
    }
}

/// Every vertex lies within the classification tolerance of `pl`.
pub open spec fn all_on_plane(vs: Seq<Vertex>, pl: Plane) -> bool {
    forall|i: int| 0 <= i < vs.len() ==> -(EPSILON as int) <= plane_offset(
        pl,
        (#[trigger] vs[i]).position,
    ) <= EPSILON as int
}

impl Polygon {
    /// Build a polygon from its vertex list; the plane is derived from
    /// the first three vertices, which must not be collinear.
    pub fn new(vertices: Vec<Vertex>) -> (r: Polygon)
        requires
            vertices@.len() >= 3,
            forall|i: int|
                0 <= i < vertices@.len() ==> vertex_bounded(#[trigger] vertices@[i]),
            !degenerate_spec(vertices@),
        ensures
            r@.vertices == vertices@,
            r@.plane == crate::dim3::plane::from_points_spec(
                vertices@[0].position,
                vertices@[1].position,
                vertices@[2].position,
            ),
            plane_wf(r@.plane),
            poly_wf(r@),
    {
        let plane = Plane::from_points(
            vertices[0].position,
            vertices[1].position,
            vertices[2].position,
        );
        Polygon { vertices, plane }
    }

    /// Checked construction: rejects short or collinear vertex lists as
    /// degenerate, and lists with a vertex off the derived plane.
    pub fn try_new(vertices: Vec<Vertex>) -> (r: Result<Polygon, CsgError>)
        requires
            forall|i: int|
                0 <= i < vertices@.len() ==> vertex_bounded(#[trigger] vertices@[i]),
        ensures
            r is Ok <==> (!degenerate_spec(vertices@) && all_on_plane(
                vertices@,
                crate::dim3::plane::from_points_spec(
                    vertices@[0].position,
                    vertices@[1].position,
                    vertices@[2].position,
                ),
            )),
            degenerate_spec(vertices@) ==> r == Result::<Polygon, CsgError>::Err(
                CsgError::DegenerateGeometry,
            ),
            !degenerate_spec(vertices@) && !all_on_plane(
                vertices@,
                crate::dim3::plane::from_points_spec(
                    vertices@[0].position,
                    vertices@[1].position,
                    vertices@[2].position,
                ),
            ) ==> r == Result::<Polygon, CsgError>::Err(CsgError::NonCoplanarVertices),
            r is Ok ==> r->Ok_0@.vertices == vertices@ && r->Ok_0@.plane
                == crate::dim3::plane::from_points_spec(
                vertices@[0].position,
                vertices@[1].position,
                vertices@[2].position,
            ) && poly_wf(r->Ok_0@),
    {
        if vertices.len() < 3 {
            return Err(CsgError::DegenerateGeometry);
        }
        let d1 = vertices[1].position.minus(vertices[0].position);
        let d2 = vertices[2].position.minus(vertices[0].position);
        let c = d1.cross(d2);
        proof {
            let a = vertices@[0].position;
            let b = vertices@[1].position;
            let cc = vertices@[2].position;
            assert((b.0 - a.0) as i64 == b.0 - a.0);
            assert((b.1 - a.1) as i64 == b.1 - a.1);
            assert((b.2 - a.2) as i64 == b.2 - a.2);
            assert((cc.0 - a.0) as i64 == cc.0 - a.0);
            assert((cc.1 - a.1) as i64 == cc.1 - a.1);
            assert((cc.2 - a.2) as i64 == cc.2 - a.2);
            assert(d1 == edge_diff(a, b));
            assert(d2 == edge_diff(a, cc));
        }
        if c.0 == 0 && c.1 == 0 && c.2 == 0 {
            return Err(CsgError::DegenerateGeometry);
        }
        proof {
            assert(!degenerate_spec(vertices@));
        }
        let plane = Plane::from_points(
            vertices[0].position,
            vertices[1].position,
            vertices[2].position,
        );
        let n = vertices.len();
        let mut i: usize = 0;
        while i < n
            invariant
                0 <= i <= n,
                n == vertices@.len(),
                n >= 3,
                !degenerate_spec(vertices@),
                forall|k: int|
                    0 <= k < vertices@.len() ==> vertex_bounded(#[trigger] vertices@[k]),
                plane_wf(plane),
                plane == crate::dim3::plane::from_points_spec(
                    vertices@[0].position,
                    vertices@[1].position,
                    vertices@[2].position,
                ),
                forall|k: int|
                    0 <= k < i ==> -(EPSILON as int) <= plane_offset(
                        plane,
                        (#[trigger] vertices@[k]).position,
                    ) <= EPSILON as int,
            decreases n - i,
        {
            let t = plane.offset_of(vertices[i].position);
            if t < -EPSILON || t > EPSILON {
                return Err(CsgError::NonCoplanarVertices);
            }
            i += 1;
        }
        Ok(Polygon { vertices, plane })
    }

    /// An element-wise copy with the same mathematical value.
    pub fn duplicate(&self) -> (r: Polygon)
        ensures
            r@ == self@,
    {
        let n = self.vertices.len();
        let mut vs: Vec<Vertex> = Vec::new();
        let mut i: usize = 0;
        while i < n
            invariant
                0 <= i <= n,
                n == self@.vertices.len(),
                vs@.len() == i,
                forall|k: int| 0 <= k < i ==> #[trigger] vs@[k] == self@.vertices[k],
            decreases n - i,
        {
            vs.push(self.vertices[i]);
            i += 1;
        }
        proof {
            assert(vs@ =~= self@.vertices);
        }
        let r = Polygon { vertices: vs, plane: self.plane };
        proof {
            assert(r@ =~= self@);
        }
        r
    }

    /// Reverse the winding so the face's outward side is swapped.
    pub fn flip(&mut self)
        requires
            poly_wf(old(self)@),
        ensures
            final(self)@ == poly_flip_spec(old(self)@),
            poly_wf(final(self)@),
    {
        let n = self.vertices.len();
        let mut flipped: Vec<Vertex> = Vec::new();
        let mut i: usize = 0;
        while i < n
            invariant
                0 <= i <= n,
                n == old(self)@.vertices.len(),
                *self == *old(self),
                poly_wf(old(self)@),
                flipped@.len() == i,
                forall|k: int|
                    0 <= k < i ==> #[trigger] flipped@[k] == vertex_flip_spec(
                        old(self)@.vertices[n - 1 - k],
                    ),
            decreases n - i,
        {
            let v = self.vertices[n - 1 - i];
            flipped.push(v.flip());
            i += 1;
        }
        self.vertices = flipped;
        self.plane = self.plane.flip();
        proof {
            assert(self@.vertices =~= poly_flip_spec(old(self)@).vertices);
            assert(self@ =~= poly_flip_spec(old(self)@));
            assert forall|k: int| 0 <= k < self@.vertices.len() implies vertex_bounded(
                #[trigger] self@.vertices[k],
            ) by {
                assert(self@.vertices[k] == vertex_flip_spec(old(self)@.vertices[n - 1 - k]));
                assert(vertex_bounded(old(self)@.vertices[n - 1 - k]));
            }
        }
    }
}

/// Flipping a vertex twice restores it bit-exactly.
pub proof fn lemma_vertex_flip_involution(v: Vertex)
    requires
        vertex_bounded(v),
    ensures
        vertex_flip_spec(vertex_flip_spec(v)) == v,
{
}

/// Flipping a face twice restores it bit-exactly: the winding is
/// reversed back and every normal negated back.
pub proof fn lemma_poly_flip_involution(p: PolyView)
    requires
        poly_wf(p),
    ensures
        poly_flip_spec(poly_flip_spec(p)) == p,
{
    let q = poly_flip_spec(p);
    let r = poly_flip_spec(q);
    let n = p.vertices.len() as int;
    assert forall|k: int| 0 <= k < n implies r.vertices[k] == p.vertices[k] by {
        assert(q.vertices[n - 1 - k] == vertex_flip_spec(p.vertices.reverse()[n - 1 - k]));
        assert(p.vertices.reverse()[n - 1 - k] == p.vertices[k]);
        assert(r.vertices[k] == vertex_flip_spec(q.vertices.reverse()[k]));
        assert(q.vertices.reverse()[k] == q.vertices[n - 1 - k]);
        lemma_vertex_flip_involution(p.vertices[k]);
    }
    assert(r.vertices =~= p.vertices);
    assert(r =~= p);
}

} // verus!
