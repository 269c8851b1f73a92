//! Nodes of a BSP tree. A node holds the faces coplanar with its
//! splitting plane; faces strictly in front or back live in the
//! subtrees. A node without a plane is an empty tree.

use crate::dim3::plane::{
    lemma_views_append, lemma_views_push, plane_flip_spec, plane_wf, split_polygon_spec, views_of,
    Plane, SplitDelta,
};
use crate::dim3::polygon::{poly_flip_spec, poly_wf, Polygon, PolyView};
use crate::{CsgError, DEFAULT_DEPTH};
use vstd::prelude::*;

verus! {

/// One node of a BSP tree, owning its subtrees.
pub struct BspNode {
    pub plane: Option<Plane>,
    pub front: Option<Box<BspNode>>,
    pub back: Option<Box<BspNode>>,
    pub polygons: Vec<Polygon>,
}

/// The mathematical value of a BSP tree.
#[verifier::ext_equal]
pub struct NodeView {
    pub plane: Option<Plane>,
    pub front: Option<Box<NodeView>>,
    pub back: Option<Box<NodeView>>,
    pub polygons: Seq<PolyView>,
}

pub open spec fn node_view(n: BspNode) -> NodeView
    decreases n,
{
    NodeView {
        plane: n.plane,
        front: match n.front {
            Option::Some(f) => Option::Some(Box::new(node_view(*f))),
            Option::None => Option::None,
        },
        back: match n.back {
            Option::Some(b) => Option::Some(Box::new(node_view(*b))),
            Option::None => Option::None,
        },
        polygons: views_of(n.polygons@),
    }
}

impl View for BspNode {
    type V = NodeView;

    open spec fn view(&self) -> NodeView {
        node_view(*self)
    }
}

/// The value of a fresh, empty tree.
pub open spec fn empty_node_view() -> NodeView {
    NodeView {
        plane: Option::None,
        front: Option::None,
        back: Option::None,
        polygons: Seq::empty(),
    }
}

/// Well-formedness of a whole tree: every plane and face bounded.
pub open spec fn node_wf(m: NodeView) -> bool
    decreases m,
{
    &&& (match m.plane {
        Option::Some(p) => plane_wf(p),
        Option::None => true,
    })
    &&& (forall|k: int| 0 <= k < m.polygons.len() ==> poly_wf(#[trigger] m.polygons[k]))
    &&& (match m.front {
        Option::Some(f) => node_wf(*f),
        Option::None => true,
    })
    &&& (match m.back {
        Option::Some(b) => node_wf(*b),
        Option::None => true,
    })
}

/// Every face of a list is well-formed.
pub open spec fn polys_wf(s: Seq<PolyView>) -> bool {
    forall|k: int| 0 <= k < s.len() ==> poly_wf(#[trigger] s[k])
}

/// What `invert` does: flip every face and the plane, swap the
/// subtrees, recursively.
pub open spec fn invert_view(m: NodeView) -> NodeView
    decreases m,
{
    NodeView {
        plane: match m.plane {
            Option::Some(p) => Option::Some(plane_flip_spec(p)),
            Option::None => Option::None,
        },
        front: match m.back {
            Option::Some(b) => Option::Some(Box::new(invert_view(*b))),
            Option::None => Option::None,
        },
        back: match m.front {
            Option::Some(f) => Option::Some(Box::new(invert_view(*f))),
            Option::None => Option::None,
        },
        polygons: m.polygons.map_values(|p: PolyView| poly_flip_spec(p)),
    }
}

/// What `all_polygons` collects: this node's faces, then the front
/// subtree's, then the back subtree's.
pub open spec fn all_view(m: NodeView) -> Seq<PolyView>
    decreases m,
{
    m.polygons + (match m.front {
        Option::Some(f) => all_view(*f),
        Option::None => Seq::empty(),
    }) + (match m.back {
        Option::Some(b) => all_view(*b),
        Option::None => Seq::empty(),
    })
}

/// Folds of `split_polygon_spec` over a face list, in input order,
/// each keeping the parts one of the callers routes together.
pub open spec fn route_clip_front(pl: Plane, ps: Seq<PolyView>) -> Seq<PolyView>
    decreases ps.len(),
{
    if ps.len() == 0 {
        Seq::empty()
    } else {
        let d = split_polygon_spec(pl, ps.last());
        route_clip_front(pl, ps.drop_last()) + d.coplanar_front + d.front
    }
}

pub open spec fn route_clip_back(pl: Plane, ps: Seq<PolyView>) -> Seq<PolyView>
    decreases ps.len(),
{
    if ps.len() == 0 {
        Seq::empty()
    } else {
        let d = split_polygon_spec(pl, ps.last());
        route_clip_back(pl, ps.drop_last()) + d.coplanar_back + d.back
    }
}

pub open spec fn route_coplanar(pl: Plane, ps: Seq<PolyView>) -> Seq<PolyView>
    decreases ps.len(),
{
    if ps.len() == 0 {
        Seq::empty()
    } else {
        let d = split_polygon_spec(pl, ps.last());
        route_coplanar(pl, ps.drop_last()) + d.coplanar_front + d.coplanar_back
    }
}

pub open spec fn route_front(pl: Plane, ps: Seq<PolyView>) -> Seq<PolyView>
    decreases ps.len(),
{
    if ps.len() == 0 {
        Seq::empty()
    } else {
        route_front(pl, ps.drop_last()) + split_polygon_spec(pl, ps.last()).front
    }
}

pub open spec fn route_back(pl: Plane, ps: Seq<PolyView>) -> Seq<PolyView>
    decreases ps.len(),
{
    if ps.len() == 0 {
        Seq::empty()
    } else {
        route_back(pl, ps.drop_last()) + split_polygon_spec(pl, ps.last()).back
    }
}

/// What `clip_polygons` keeps of `ps` against the solid this tree
/// describes: a planeless node keeps its own (empty) list; otherwise
/// the front parts survive through the front subtree (or unchanged
/// without one) and the back parts survive only through a back
/// subtree.
pub open spec fn clip_view(m: NodeView, ps: Seq<PolyView>) -> Seq<PolyView>
    decreases m,
{
    match m.plane {
        Option::None => m.polygons,
        Option::Some(pl) => {
            let fr = route_clip_front(pl, ps);
            let bk = route_clip_back(pl, ps);
            let fr2 = match m.front {
                Option::Some(f) => clip_view(*f, fr),
                Option::None => fr,
            };
            let bk2 = match m.back {
                Option::Some(b) => clip_view(*b, bk),
                Option::None => Seq::empty(),
            };
            fr2 + bk2
        },
    }
}

/// What `clip_to` does: replace every face list in this tree by what
/// survives clipping against `other`.
pub open spec fn clip_to_view(m: NodeView, other: NodeView) -> NodeView
    decreases m,
{
    NodeView {
        plane: m.plane,
        front: match m.front {
            Option::Some(f) => Option::Some(Box::new(clip_to_view(*f, other))),
            Option::None => Option::None,
        },
        back: match m.back {
            Option::Some(b) => Option::Some(Box::new(clip_to_view(*b, other))),
            Option::None => Option::None,
        },
        polygons: clip_view(other, m.polygons),
    }
}

/// What `build` does, with a depth budget. The first face seeds the
/// plane of a planeless node; every face is split by that plane;
/// coplanar pieces stay here and the side pieces build the subtrees,
/// creating them when missing. `None` means the budget was exhausted.
pub open spec fn build_view(m: NodeView, ps: Seq<PolyView>, fuel: nat) -> Option<NodeView>
    decreases fuel,
{
    if ps.len() == 0 {
        Option::Some(m)
    } else if fuel == 0 {
        Option::None
    } else {
        let pl = match m.plane {
            Option::Some(p) => p,
            Option::None => ps[0].plane,
        };
        let cop = route_coplanar(pl, ps);
        let fr = route_front(pl, ps);
        let bk = route_back(pl, ps);
        let front1 = if fr.len() > 0 {
            let fc = match m.front {
                Option::Some(f) => *f,
                Option::None => empty_node_view(),
            };
            match build_view(fc, fr, (fuel - 1) as nat) {
                Option::Some(x) => Option::Some(Option::Some(Box::new(x))),
                Option::None => Option::None,
            }
        } else {
            Option::Some(m.front)
        };
        match front1 {
            Option::None => Option::None,
            Option::Some(new_front) => {
                let back1 = if bk.len() > 0 {
                    let bc = match m.back {
                        Option::Some(b) => *b,
                        Option::None => empty_node_view(),
                    };
                    match build_view(bc, bk, (fuel - 1) as nat) {
                        Option::Some(x) => Option::Some(Option::Some(Box::new(x))),
                        Option::None => Option::None,
                    }
                } else {
                    Option::Some(m.back)
                };
                match back1 {
                    Option::None => Option::None,
                    Option::Some(new_back) => Option::Some(
                        NodeView {
                            plane: Option::Some(pl),
                            front: new_front,
                            back: new_back,
                            polygons: m.polygons + cop,
                        },
                    ),
                }
            },
        }
    }
}

/// An element-wise copy of a face list.
pub(crate) fn duplicate_polys(v: &Vec<Polygon>) -> (r: Vec<Polygon>)
    ensures
        views_of(r@) == views_of(v@),
        r@.len() == v@.len(),
{
    let n = v.len();
    let mut out: Vec<Polygon> = Vec::new();
    let mut i: usize = 0;
    while i < n
        invariant
            0 <= i <= n,
            n == v@.len(),
            out@.len() == i,
            forall|k: int| 0 <= k < i ==> (#[trigger] out@[k])@ == v@[k]@,
        decreases n - i,
    {
        out.push(v[i].duplicate());
        i += 1;
    }
    proof {
        assert(views_of(out@) =~= views_of(v@));
    }
    out
}

/// Inverting a well-formed tree twice restores it bit-exactly, so in
/// particular it restores everything `all_polygons` collects.
pub proof fn lemma_invert_involution(m: NodeView)
    requires
        node_wf(m),
    ensures
        invert_view(invert_view(m)) == m,
        all_view(invert_view(invert_view(m))) == all_view(m),
    decreases m,
{
    match m.front {
        Option::Some(f) => lemma_invert_involution(*f),
        Option::None => {},
    }
    match m.back {
        Option::Some(b) => lemma_invert_involution(*b),
        Option::None => {},
    }
    let r = invert_view(invert_view(m));
    assert forall|k: int| 0 <= k < m.polygons.len() implies r.polygons[k] == m.polygons[k] by {
        crate::dim3::polygon::lemma_poly_flip_involution(m.polygons[k]);
    }
    assert(r.polygons =~= m.polygons);
    assert(r =~= m);
}

/// Every face a well-formed tree collects is well-formed.
pub proof fn lemma_all_view_wf(m: NodeView)
    requires
        node_wf(m),
    ensures
        polys_wf(all_view(m)),
    decreases m,
{
    let fa = match m.front {
        Option::Some(f) => all_view(*f),
        Option::None => Seq::<PolyView>::empty(),
    };
    let ba = match m.back {
        Option::Some(b) => all_view(*b),
        Option::None => Seq::<PolyView>::empty(),
    };
    match m.front {
        Option::Some(f) => lemma_all_view_wf(*f),
        Option::None => {},
    }
    match m.back {
        Option::Some(b) => lemma_all_view_wf(*b),
        Option::None => {},
    }
    assert forall|k: int| 0 <= k < all_view(m).len() implies poly_wf(#[trigger] all_view(m)[k]) by {
        if k < m.polygons.len() {
            assert(all_view(m)[k] == m.polygons[k]);
        } else if k < m.polygons.len() + fa.len() {
            assert(all_view(m)[k] == fa[k - m.polygons.len()]);
        } else {
            assert(all_view(m)[k] == ba[k - m.polygons.len() - fa.len()]);
        }
    }
}

/// Indexing the views of a face list gives the view of the face.
pub proof fn lemma_views_index(s: Seq<Polygon>, i: int)
    requires
        0 <= i < s.len(),
    ensures
        views_of(s)[i] == s[i]@,
{
}

impl BspNode {
    /// Build a tree over the given faces, if any, within the default
    /// depth ceiling.
    pub fn new(polygons: Option<Vec<Polygon>>) -> (r: Result<BspNode, CsgError>)
        requires
            match polygons {
                Option::Some(ps) => polys_wf(views_of(ps@)),
                Option::None => true,
            },
        ensures
            ({
                let ps = match polygons {
                    Option::Some(v) => views_of(v@),
                    Option::None => Seq::<PolyView>::empty(),
                };
                &&& (build_view(empty_node_view(), ps, DEFAULT_DEPTH as nat) is Some ==> r is Ok
                    && r->Ok_0@ == build_view(empty_node_view(), ps, DEFAULT_DEPTH as nat).unwrap())
                &&& (build_view(empty_node_view(), ps, DEFAULT_DEPTH as nat) is None ==> r
                    == Result::<BspNode, CsgError>::Err(CsgError::DepthExceeded))
                &&& (r is Ok ==> node_wf(r->Ok_0@))
            }),
    {
        let mut node = BspNode {
            plane: Option::None,
            front: Option::None,
            back: Option::None,
            polygons: Vec::new(),
        };
        proof {
            assert(node@ =~= empty_node_view());
        }
        match polygons {
            Option::Some(ps) => {
                match node.build(ps, DEFAULT_DEPTH) {
                    Result::Ok(()) => Result::Ok(node),
                    Result::Err(e) => Result::Err(e),
                }
            },
            Option::None => Result::Ok(node),
        }
    }

    /// Convert solid space to empty space and empty space to solid
    /// space: flip every face and the plane, and swap the subtrees.
    pub fn invert(&mut self)
        requires
            node_wf(old(self)@),
        ensures
            final(self)@ == invert_view(old(self)@),
            node_wf(final(self)@),
        decreases *old(self),
    {
        let n = self.polygons.len();
        let mut flipped: Vec<Polygon> = Vec::new();
        let mut i: usize = 0;
        while i < n
            invariant
                0 <= i <= n,
                *self == *old(self),
                node_wf(old(self)@),
                n == self.polygons@.len(),
                flipped@.len() == i,
                forall|k: int|
                    0 <= k < i ==> (#[trigger] flipped@[k])@ == poly_flip_spec(
                        old(self)@.polygons[k],
                    ) && poly_wf(flipped@[k]@),
            decreases n - i,
        {
            let mut p = self.polygons[i].duplicate();
            proof {
                assert(old(self)@.polygons[i as int] == self.polygons@[i as int]@);
            }
            p.flip();
            flipped.push(p);
            i += 1;
        }
        self.polygons = flipped;
        let pl = self.plane;
        match pl {
            Option::Some(p) => {
                self.plane = Option::Some(p.flip());
            },
            Option::None => {},
        }
        let f = self.front.take();
        let b = self.back.take();
        let new_back = match f {
            Option::Some(mut x) => {
                (&mut *x).invert();
                Option::Some(x)
            },
            Option::None => Option::None,
        };
        let new_front = match b {
            Option::Some(mut x) => {
                (&mut *x).invert();
                Option::Some(x)
            },
            Option::None => Option::None,
        };
        self.front = new_front;
        self.back = new_back;
        proof {
            assert(self@.polygons =~= invert_view(old(self)@).polygons);
            assert(self@ =~= invert_view(old(self)@));
        }
    }

    /// Collect every face of the tree: this node's, then the front
    /// subtree's, then the back subtree's.
    pub fn all_polygons(&self) -> (r: Vec<Polygon>)
        requires
            node_wf(self@),
        ensures
            views_of(r@) == all_view(self@),
    {
        let mut out: Vec<Polygon> = Vec::new();
        self.fill_polygons(&mut out);
        proof {
            assert(views_of(out@) =~= all_view(self@));
        }
        out
    }

    fn fill_polygons(&self, out: &mut Vec<Polygon>)
        requires
            node_wf(self@),
        ensures
            views_of(final(out)@) == views_of(old(out)@) + all_view(self@),
        decreases *self,
    {
        let n = self.polygons.len();
        let mut i: usize = 0;
        while i < n
            invariant
                0 <= i <= n,
                n == self.polygons@.len(),
                views_of(out@) == views_of(old(out)@) + views_of(self.polygons@.take(i as int)),
            decreases n - i,
        {
            let ghost o0 = out@;
            let dup = self.polygons[i].duplicate();
            out.push(dup);
            proof {
                assert(self.polygons@.take(i as int + 1) =~= self.polygons@.take(i as int).push(
                    self.polygons@[i as int],
                ));
                lemma_views_push(self.polygons@.take(i as int), self.polygons@[i as int]);
                lemma_views_push(o0, dup);
                assert(views_of(out@) =~= views_of(old(out)@) + views_of(
                    self.polygons@.take(i as int + 1),
                ));
            }
            i += 1;
        }
        proof {
            assert(self.polygons@.take(n as int) =~= self.polygons@);
        }
        match &self.front {
            Option::Some(f) => f.fill_polygons(out),
            Option::None => {},
        }
        match &self.back {
            Option::Some(b) => b.fill_polygons(out),
            Option::None => {},
        }
        proof {
            assert(views_of(out@) =~= views_of(old(out)@) + all_view(self@));
        }
    }

    /// Remove from `polygons` everything inside the solid this tree
    /// describes, splitting faces that straddle a plane; the node is
    /// not changed.
    pub fn clip_polygons(&self, polygons: &Vec<Polygon>) -> (r: Vec<Polygon>)
        requires
            node_wf(self@),
            polys_wf(views_of(polygons@)),
        ensures
            views_of(r@) == clip_view(self@, views_of(polygons@)),
            polys_wf(views_of(r@)),
        decreases *self,
    {
        let pl = match &self.plane {
            Option::Some(p) => *p,
            Option::None => {
                let r = duplicate_polys(&self.polygons);
                proof {
                    assert(self@.polygons == views_of(self.polygons@));
                    assert forall|k: int| 0 <= k < views_of(r@).len() implies poly_wf(
                        #[trigger] views_of(r@)[k],
                    ) by {
                        assert(views_of(r@)[k] == self@.polygons[k]);
                    }
                }
                return r;
            },
        };
        let mut front: Vec<Polygon> = Vec::new();
        let mut back: Vec<Polygon> = Vec::new();
        let n = polygons.len();
        let mut i: usize = 0;
        proof {
            assert(views_of(polygons@).take(0) =~= Seq::<PolyView>::empty());
        }
        while i < n
            invariant
                plane_wf(pl),
                polys_wf(views_of(polygons@)),
                0 <= i <= n,
                n == polygons@.len(),
                views_of(front@) == route_clip_front(pl, views_of(polygons@).take(i as int)),
                views_of(back@) == route_clip_back(pl, views_of(polygons@).take(i as int)),
                polys_wf(views_of(front@)),
                polys_wf(views_of(back@)),
            decreases n - i,
        {
            let mut second_front: Vec<Polygon> = Vec::new();
            let mut second_back: Vec<Polygon> = Vec::new();
            proof {
                lemma_views_index(polygons@, i as int);
                assert(poly_wf(views_of(polygons@)[i as int]));
            }
            pl.split_polygon(
                &polygons[i],
                &mut front,
                &mut back,
                &mut second_front,
                &mut second_back,
            );
            front.append(&mut second_front);
            back.append(&mut second_back);
            proof {
                let vs = views_of(polygons@);
                assert(vs.take(i as int + 1).drop_last() =~= vs.take(i as int));
                assert(vs.take(i as int + 1).last() == vs[i as int]);
                assert(views_of(front@) =~= route_clip_front(pl, vs.take(i as int + 1)));
                assert(views_of(back@) =~= route_clip_back(pl, vs.take(i as int + 1)));
            }
            i += 1;
        }
        proof {
            assert(views_of(polygons@).take(n as int) =~= views_of(polygons@));
        }
        let clipped_front = match &self.front {
            Option::Some(f) => f.clip_polygons(&front),
            Option::None => front,
        };
        let mut clipped_back = match &self.back {
            Option::Some(b) => b.clip_polygons(&back),
            Option::None => Vec::new(),
        };
        let mut result = clipped_front;
        result.append(&mut clipped_back);
        proof {
            assert(views_of(result@) =~= clip_view(self@, views_of(polygons@)));
        }
        result
    }

    /// Replace every face list of this tree by what survives clipping
    /// against `bsp`: afterwards no face of `self` lies inside the
    /// solid `bsp` describes.
    pub fn clip_to(&mut self, bsp: &BspNode)
        requires
            node_wf(old(self)@),
            node_wf(bsp@),
        ensures
            final(self)@ == clip_to_view(old(self)@, bsp@),
            node_wf(final(self)@),
        decreases *old(self),
    {
        let r = bsp.clip_polygons(&self.polygons);
        self.polygons = r;
        let f = self.front.take();
        match f {
            Option::Some(mut x) => {
                (&mut *x).clip_to(bsp);
                self.front = Option::Some(x);
            },
            Option::None => {},
        }
        let b = self.back.take();
        match b {
            Option::Some(mut x) => {
                (&mut *x).clip_to(bsp);
                self.back = Option::Some(x);
            },
            Option::None => {},
        }
        proof {
            assert(self@ =~= clip_to_view(old(self)@, bsp@));
        }
    }

    /// Insert the faces into the tree, splitting them down to the
    /// leaves; a planeless node takes the first face's plane. Fails
    /// without effect on the result when the tree would grow deeper
    /// than `depth`.
    #[verifier::rlimit(100)]
    pub fn build(&mut self, polygons: Vec<Polygon>, depth: u32) -> (r: Result<(), CsgError>)
        requires
            node_wf(old(self)@),
            polys_wf(views_of(polygons@)),
        ensures
            build_view(old(self)@, views_of(polygons@), depth as nat) is Some ==> r is Ok
                && final(self)@ == build_view(old(self)@, views_of(polygons@), depth as nat).unwrap(),
            build_view(old(self)@, views_of(polygons@), depth as nat) is None ==> r
                == Result::<(), CsgError>::Err(CsgError::DepthExceeded),
            node_wf(final(self)@),
        decreases depth,
    {
        if polygons.is_empty() {
            proof {
                assert(views_of(polygons@) =~= Seq::<PolyView>::empty());
            }
            return Result::Ok(());
        }
        if depth == 0 {
            return Result::Err(CsgError::DepthExceeded);
        }
        let pl = match &self.plane {
            Option::Some(p) => *p,
            Option::None => polygons[0].plane,
        };
        proof {
            lemma_views_index(polygons@, 0);
            assert(poly_wf(views_of(polygons@)[0]));
        }
        self.plane = Option::Some(pl);
        let ghost m0 = old(self)@;
        let mut front_list: Vec<Polygon> = Vec::new();
        let mut back_list: Vec<Polygon> = Vec::new();
        let n = polygons.len();
        let mut i: usize = 0;
        proof {
            assert(views_of(polygons@).take(0) =~= Seq::<PolyView>::empty());
        }
        while i < n
            invariant
                plane_wf(pl),
                polys_wf(views_of(polygons@)),
                0 <= i <= n,
                n == polygons@.len(),
                self.plane == Option::<Plane>::Some(pl),
                self.front == old(self).front,
                self.back == old(self).back,
                node_wf(old(self)@),
                views_of(self.polygons@) == old(self)@.polygons + route_coplanar(
                    pl,
                    views_of(polygons@).take(i as int),
                ),
                views_of(front_list@) == route_front(pl, views_of(polygons@).take(i as int)),
                views_of(back_list@) == route_back(pl, views_of(polygons@).take(i as int)),
                polys_wf(views_of(self.polygons@)),
                polys_wf(views_of(front_list@)),
                polys_wf(views_of(back_list@)),
            decreases n - i,
        {
            let mut second: Vec<Polygon> = Vec::new();
            proof {
                lemma_views_index(polygons@, i as int);
                assert(poly_wf(views_of(polygons@)[i as int]));
            }
            let ghost sp0 = self.polygons@;
            pl.split_polygon(
                &polygons[i],
                &mut self.polygons,
                &mut second,
                &mut front_list,
                &mut back_list,
            );
            let ghost spm = self.polygons@;
            let ghost sec = second@;
            self.polygons.append(&mut second);
            proof {
                let vs = views_of(polygons@);
                assert(vs.take(i as int + 1).drop_last() =~= vs.take(i as int));
                assert(vs.take(i as int + 1).last() == vs[i as int]);
                lemma_views_append(spm, sec);
                assert(self.polygons@ == spm + sec);
                assert(views_of(Seq::<Polygon>::empty()) =~= Seq::<PolyView>::empty());
                assert(views_of(self.polygons@) =~= old(self)@.polygons + route_coplanar(
                    pl,
                    vs.take(i as int + 1),
                ));
                assert(views_of(front_list@) =~= route_front(pl, vs.take(i as int + 1)));
                assert(views_of(back_list@) =~= route_back(pl, vs.take(i as int + 1)));
                assert forall|k: int| 0 <= k < views_of(self.polygons@).len() implies poly_wf(
                    #[trigger] views_of(self.polygons@)[k],
                ) by {
                    if k < spm.len() {
                        assert(views_of(self.polygons@)[k] == views_of(spm)[k]);
                        if k < sp0.len() {
                            assert(views_of(spm)[k] == views_of(sp0)[k]);
                        }
                    }
                }
                assert forall|k: int| 0 <= k < views_of(front_list@).len() implies poly_wf(
                    #[trigger] views_of(front_list@)[k],
                ) by {}
                assert forall|k: int| 0 <= k < views_of(back_list@).len() implies poly_wf(
                    #[trigger] views_of(back_list@)[k],
                ) by {}
            }
            i += 1;
        }
        proof {
            assert(views_of(polygons@).take(n as int) =~= views_of(polygons@));
        }
        let ghost fr_v = views_of(front_list@);
        let ghost bk_v = views_of(back_list@);
        if !front_list.is_empty() {
            let mut child = match self.front.take() {
                Option::Some(b) => b,
                Option::None => Box::new(
                    BspNode {
                        plane: Option::None,
                        front: Option::None,
                        back: Option::None,
                        polygons: Vec::new(),
                    },
                ),
            };
            proof {
                assert(child@ =~= (match m0.front {
                    Option::Some(f) => *f,
                    Option::None => empty_node_view(),
                }));
            }
            let ghost fc0 = child@;
            let res = (&mut *child).build(front_list, depth - 1);
            self.front = Option::Some(child);
            if res.is_err() {
                proof {
                    assert(build_view(fc0, fr_v, (depth - 1) as nat) is None);
                    assert(build_view(m0, views_of(polygons@), depth as nat) is None);
                }
                return Result::Err(CsgError::DepthExceeded);
            }
        }
        if !back_list.is_empty() {
            let mut child = match self.back.take() {
                Option::Some(b) => b,
                Option::None => Box::new(
                    BspNode {
                        plane: Option::None,
                        front: Option::None,
                        back: Option::None,
                        polygons: Vec::new(),
                    },
                ),
            };
            proof {
                assert(child@ =~= (match m0.back {
                    Option::Some(b) => *b,
                    Option::None => empty_node_view(),
                }));
            }
            let ghost bc0 = child@;
            let res = (&mut *child).build(back_list, depth - 1);
            self.back = Option::Some(child);
            if res.is_err() {
                proof {
                    assert(build_view(bc0, bk_v, (depth - 1) as nat) is None);
                    assert(build_view(m0, views_of(polygons@), depth as nat) is None);
                }
                return Result::Err(CsgError::DepthExceeded);
            }
        }
        proof {
            let mv = build_view(m0, views_of(polygons@), depth as nat);
            assert(mv is Some && self@ =~= mv.unwrap());
        }
        Result::Ok(())
    }
}

} // verus!
