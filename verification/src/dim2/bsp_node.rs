//! Nodes of a 2D BSP tree, partitioning the plane by oriented lines.

use crate::dim2::line::{line_flip_spec, line_wf, Line};
use crate::dim2::plane::{plane2_flip_spec, plane2_wf, split_lines_spec, Plane};
use crate::{CsgError, DEFAULT_DEPTH};
use vstd::prelude::*;

verus! {

/// One node of a 2D BSP tree, owning its subtrees.
pub struct BspNode {
    pub plane: Option<Plane>,
    pub front: Option<Box<BspNode>>,
    pub back: Option<Box<BspNode>>,
    pub lines: Vec<Line>,
}

/// The mathematical value of a 2D BSP tree.
#[verifier::ext_equal]
pub struct NodeView2 {
    pub plane: Option<Plane>,
    pub front: Option<Box<NodeView2>>,
    pub back: Option<Box<NodeView2>>,
    pub lines: Seq<Line>,
}

pub open spec fn node2_view(n: BspNode) -> NodeView2
    decreases n,
{
    NodeView2 {
        plane: n.plane,
        front: match n.front {
            Option::Some(f) => Option::Some(Box::new(node2_view(*f))),
            Option::None => Option::None,
        },
        back: match n.back {
            Option::Some(b) => Option::Some(Box::new(node2_view(*b))),
            Option::None => Option::None,
        },
        lines: n.lines@,
    }
}

impl View for BspNode {
    type V = NodeView2;

    open spec fn view(&self) -> NodeView2 {
        node2_view(*self)
    }
}

/// The value of a fresh, empty tree.
pub open spec fn empty_node2_view() -> NodeView2 {
    NodeView2 { plane: Option::None, front: Option::None, back: Option::None, lines: Seq::empty() }
}

/// Well-formedness of a whole tree: every line and plane bounded.
pub open spec fn node2_wf(m: NodeView2) -> bool
    decreases m,
{
    &&& (match m.plane {
        Option::Some(p) => plane2_wf(p),
        Option::None => true,
    })
    &&& (forall|k: int| 0 <= k < m.lines.len() ==> line_wf(#[trigger] m.lines[k]))
    &&& (match m.front {
        Option::Some(f) => node2_wf(*f),
        Option::None => true,
    })
    &&& (match m.back {
        Option::Some(b) => node2_wf(*b),
        Option::None => true,
    })
}

/// Every segment of a list is well-formed.
pub open spec fn lines_wf(s: Seq<Line>) -> bool {
    forall|k: int| 0 <= k < s.len() ==> line_wf(#[trigger] s[k])
}

/// What `invert` does: flip every segment and the plane, swap the
/// subtrees, recursively.
pub open spec fn invert2_view(m: NodeView2) -> NodeView2
    decreases m,
{
    NodeView2 {
        plane: match m.plane {
            Option::Some(p) => Option::Some(plane2_flip_spec(p)),
            Option::None => Option::None,
        },
        front: match m.back {
            Option::Some(b) => Option::Some(Box::new(invert2_view(*b))),
            Option::None => Option::None,
        },
        back: match m.front {
            Option::Some(f) => Option::Some(Box::new(invert2_view(*f))),
            Option::None => Option::None,
        },
        lines: m.lines.map_values(|l: Line| line_flip_spec(l)),
    }
}

/// What `all_lines` collects: this node's segments, then the front
/// subtree's, then the back subtree's.
pub open spec fn all2_view(m: NodeView2) -> Seq<Line>
    decreases m,
{
    m.lines + (match m.front {
        Option::Some(f) => all2_view(*f),
        Option::None => Seq::empty(),
    }) + (match m.back {
        Option::Some(b) => all2_view(*b),
        Option::None => Seq::empty(),
    })
}

/// Folds of `split_lines_spec` over a segment list, in input order.
pub open spec fn route2_clip_front(pl: Plane, ls: Seq<Line>) -> Seq<Line>
    decreases ls.len(),
{
    if ls.len() == 0 {
        Seq::empty()
    } else {
        let d = split_lines_spec(pl, ls.last());
        route2_clip_front(pl, ls.drop_last()) + d.coplanar_front + d.front
    }
}

pub open spec fn route2_clip_back(pl: Plane, ls: Seq<Line>) -> Seq<Line>
    decreases ls.len(),
{
    if ls.len() == 0 {
        Seq::empty()
    } else {
        let d = split_lines_spec(pl, ls.last());
        route2_clip_back(pl, ls.drop_last()) + d.coplanar_back + d.back
    }
}

pub open spec fn route2_coplanar(pl: Plane, ls: Seq<Line>) -> Seq<Line>
    decreases ls.len(),
{
    if ls.len() == 0 {
        Seq::empty()
    } else {
        let d = split_lines_spec(pl, ls.last());
        route2_coplanar(pl, ls.drop_last()) + d.coplanar_front + d.coplanar_back
    }
}

pub open spec fn route2_front(pl: Plane, ls: Seq<Line>) -> Seq<Line>
    decreases ls.len(),
{
    if ls.len() == 0 {
        Seq::empty()
    } else {
        route2_front(pl, ls.drop_last()) + split_lines_spec(pl, ls.last()).front
    }
}

pub open spec fn route2_back(pl: Plane, ls: Seq<Line>) -> Seq<Line>
    decreases ls.len(),
{
    if ls.len() == 0 {
        Seq::empty()
    } else {
        route2_back(pl, ls.drop_last()) + split_lines_spec(pl, ls.last()).back
    }
}

/// What `clip_lines` keeps of `ls` against this tree's solid; a
/// planeless node keeps its own (empty) list.
pub open spec fn clip2_view(m: NodeView2, ls: Seq<Line>) -> Seq<Line>
    decreases m,
{
    match m.plane {
        Option::None => m.lines,
        Option::Some(pl) => {
            let fr = route2_clip_front(pl, ls);
            let bk = route2_clip_back(pl, ls);
            let fr2 = match m.front {
                Option::Some(f) => clip2_view(*f, fr),
                Option::None => fr,
            };
            let bk2 = match m.back {
                Option::Some(b) => clip2_view(*b, bk),
                Option::None => Seq::empty(),
            };
            fr2 + bk2
        },
    }
}

/// What `clip_to` does: replace every segment list in this tree by
/// what survives clipping against `other`.
pub open spec fn clip_to2_view(m: NodeView2, other: NodeView2) -> NodeView2
    decreases m,
{
    NodeView2 {
        plane: m.plane,
        front: match m.front {
            Option::Some(f) => Option::Some(Box::new(clip_to2_view(*f, other))),
            Option::None => Option::None,
        },
        back: match m.back {
            Option::Some(b) => Option::Some(Box::new(clip_to2_view(*b, other))),
            Option::None => Option::None,
        },
        lines: clip2_view(other, m.lines),
    }
}

/// What `build` does, with a depth budget; `None` means the budget
/// was exhausted.
pub open spec fn build2_view(m: NodeView2, ls: Seq<Line>, fuel: nat) -> Option<NodeView2>
    decreases fuel,
{
    if ls.len() == 0 {
        Option::Some(m)
    } else if fuel == 0 {
        Option::None
    } else {
        let pl = match m.plane {
            Option::Some(p) => p,
            Option::None => ls[0].plane,
        };
        let cop = route2_coplanar(pl, ls);
        let fr = route2_front(pl, ls);
        let bk = route2_back(pl, ls);
        let front1 = if fr.len() > 0 {
            let fc = match m.front {
                Option::Some(f) => *f,
                Option::None => empty_node2_view(),
            };
            match build2_view(fc, fr, (fuel - 1) as nat) {
                Option::Some(x) => Option::Some(Option::Some(Box::new(x))),
                Option::None => Option::None,
            }
        } else {
            Option::Some(m.front)
        };
        match front1 {
            Option::None => Option::None,
            Option::Some(new_front) => {
                let back1 = if bk.len() > 0 {
                    let bc = match m.back {
                        Option::Some(b) => *b,
                        Option::None => empty_node2_view(),
                    };
                    match build2_view(bc, bk, (fuel - 1) as nat) {
                        Option::Some(x) => Option::Some(Option::Some(Box::new(x))),
                        Option::None => Option::None,
                    }
                } else {
                    Option::Some(m.back)
                };
                match back1 {
                    Option::None => Option::None,
                    Option::Some(new_back) => Option::Some(
                        NodeView2 {
                            plane: Option::Some(pl),
                            front: new_front,
                            back: new_back,
                            lines: m.lines + cop,
                        },
                    ),
                }
            },
        }
    }
}

/// Inverting a well-formed 2D tree twice restores it bit-exactly.
pub proof fn lemma_invert2_involution(m: NodeView2)
    requires
        node2_wf(m),
    ensures
        invert2_view(invert2_view(m)) == m,
        all2_view(invert2_view(invert2_view(m))) == all2_view(m),
    decreases m,
{
    match m.front {
        Option::Some(f) => lemma_invert2_involution(*f),
        Option::None => {},
    }
    match m.back {
        Option::Some(b) => lemma_invert2_involution(*b),
        Option::None => {},
    }
    let r = invert2_view(invert2_view(m));
    assert forall|k: int| 0 <= k < m.lines.len() implies r.lines[k] == m.lines[k] by {
        crate::dim2::line::lemma_line_flip_involution(m.lines[k]);
    }
    assert(r.lines =~= m.lines);
    assert(r =~= m);
}

/// Every segment a well-formed 2D tree collects is well-formed.
pub proof fn lemma_all2_view_wf(m: NodeView2)
    requires
        node2_wf(m),
    ensures
        lines_wf(all2_view(m)),
    decreases m,
{
    let fa = match m.front {
        Option::Some(f) => all2_view(*f),
        Option::None => Seq::<Line>::empty(),
    };
    let ba = match m.back {
        Option::Some(b) => all2_view(*b),
        Option::None => Seq::<Line>::empty(),
    };
    match m.front {
        Option::Some(f) => lemma_all2_view_wf(*f),
        Option::None => {},
    }
    match m.back {
        Option::Some(b) => lemma_all2_view_wf(*b),
        Option::None => {},
    }
    assert forall|k: int| 0 <= k < all2_view(m).len() implies line_wf(#[trigger] all2_view(m)[k]) by {
        if k < m.lines.len() {
            assert(all2_view(m)[k] == m.lines[k]);
        } else if k < m.lines.len() + fa.len() {
            assert(all2_view(m)[k] == fa[k - m.lines.len()]);
        } else {
            assert(all2_view(m)[k] == ba[k - m.lines.len() - fa.len()]);
        }
    }
}

/// An element-wise copy of a segment list.
pub(crate) fn duplicate_lines(v: &Vec<Line>) -> (r: Vec<Line>)
    ensures
        r@ == v@,
{
    let n = v.len();
    let mut out: Vec<Line> = Vec::new();
    let mut i: usize = 0;
    while i < n
        invariant
            0 <= i <= n,
            n == v@.len(),
            out@ == v@.take(i as int),
        decreases n - i,
    {
        out.push(v[i]);
        proof {
            assert(out@ =~= v@.take(i as int + 1));
        }
        i += 1;
    }
    proof {
        assert(out@ =~= v@);
    }
    out
}

impl BspNode {
    /// Build a tree over the given segments, if any, within the
    /// default depth ceiling.
    pub fn new(lines: Option<Vec<Line>>) -> (r: Result<BspNode, CsgError>)
        requires
            match lines {
                Option::Some(ls) => lines_wf(ls@),
                Option::None => true,
            },
        ensures
            ({
                let ls = match lines {
                    Option::Some(v) => v@,
                    Option::None => Seq::<Line>::empty(),
                };
                &&& (build2_view(empty_node2_view(), ls, DEFAULT_DEPTH as nat) is Some ==> r is Ok
                    && r->Ok_0@ == build2_view(empty_node2_view(), ls, DEFAULT_DEPTH as nat).unwrap())
                &&& (build2_view(empty_node2_view(), ls, DEFAULT_DEPTH as nat) is None ==> r
                    == Result::<BspNode, CsgError>::Err(CsgError::DepthExceeded))
                &&& (r is Ok ==> node2_wf(r->Ok_0@))
            }),
    {
        let mut node = BspNode {
            plane: Option::None,
            front: Option::None,
            back: Option::None,
            lines: Vec::new(),
        };
        proof {
            assert(node@ =~= empty_node2_view());
        }
        match lines {
            Option::Some(ls) => {
                match node.build(ls, DEFAULT_DEPTH) {
                    Result::Ok(()) => Result::Ok(node),
                    Result::Err(e) => Result::Err(e),
                }
            },
            Option::None => Result::Ok(node),
        }
    }

    /// Convert solid space to empty space and empty space to solid
    /// space.
    pub fn invert(&mut self)
        requires
            node2_wf(old(self)@),
        ensures
            final(self)@ == invert2_view(old(self)@),
            node2_wf(final(self)@),
        decreases *old(self),
    {
        let n = self.lines.len();
        let mut flipped: Vec<Line> = Vec::new();
        let mut i: usize = 0;
        while i < n
            invariant
                0 <= i <= n,
                *self == *old(self),
                node2_wf(old(self)@),
                n == self.lines@.len(),
                flipped@.len() == i,
                forall|k: int|
                    0 <= k < i ==> #[trigger] flipped@[k] == line_flip_spec(old(self)@.lines[k])
                        && line_wf(flipped@[k]),
            decreases n - i,
        {
            proof {
                assert(line_wf(old(self)@.lines[i as int]));
                assert(old(self)@.lines[i as int] == self.lines@[i as int]);
            }
            let p = self.lines[i].flip();
            flipped.push(p);
            i += 1;
        }
        self.lines = flipped;
        let pl = self.plane;
        match pl {
            Option::Some(p) => {
                self.plane = Option::Some(p.flip());
            },
            Option::None => {},
        }
        let f = self.front.take();
        let b = self.back.take();
        let new_back = match f {
            Option::Some(mut x) => {
                (&mut *x).invert();
                Option::Some(x)
            },
            Option::None => Option::None,
        };
        let new_front = match b {
            Option::Some(mut x) => {
                (&mut *x).invert();
                Option::Some(x)
            },
            Option::None => Option::None,
        };
        self.front = new_front;
        self.back = new_back;
        proof {
            assert(self@.lines =~= invert2_view(old(self)@).lines);
            assert(self@ =~= invert2_view(old(self)@));
        }
    }

    /// Collect every segment of the tree.
    pub fn all_lines(&self) -> (r: Vec<Line>)
        requires
            node2_wf(self@),
        ensures
            r@ == all2_view(self@),
    {
        let mut out: Vec<Line> = Vec::new();
        self.fill_lines(&mut out);
        proof {
            assert(out@ =~= all2_view(self@));
        }
        out
    }

    fn fill_lines(&self, out: &mut Vec<Line>)
        requires
            node2_wf(self@),
        ensures
            final(out)@ == old(out)@ + all2_view(self@),
        decreases *self,
    {
        let n = self.lines.len();
        let mut i: usize = 0;
        while i < n
            invariant
                0 <= i <= n,
                n == self.lines@.len(),
                out@ == old(out)@ + self.lines@.take(i as int),
            decreases n - i,
        {
            out.push(self.lines[i]);
            proof {
                assert(self.lines@.take(i as int + 1) =~= self.lines@.take(i as int).push(
                    self.lines@[i as int],
                ));
                assert(out@ =~= old(out)@ + self.lines@.take(i as int + 1));
            }
            i += 1;
        }
        proof {
            assert(self.lines@.take(n as int) =~= self.lines@);
        }
        match &self.front {
            Option::Some(f) => f.fill_lines(out),
            Option::None => {},
        }
        match &self.back {
            Option::Some(b) => b.fill_lines(out),
            Option::None => {},
        }
        proof {
            assert(out@ =~= old(out)@ + all2_view(self@));
        }
    }

    /// Remove from `lines` everything inside the solid this tree
    /// describes; the node is not changed.
    pub fn clip_lines(&self, lines: &Vec<Line>) -> (r: Vec<Line>)
        requires
            node2_wf(self@),
            lines_wf(lines@),
        ensures
            r@ == clip2_view(self@, lines@),
            lines_wf(r@),
        decreases *self,
    {
        let pl = match &self.plane {
            Option::Some(p) => *p,
            Option::None => {
                let r = duplicate_lines(&self.lines);
                return r;
            },
        };
        let mut front: Vec<Line> = Vec::new();
        let mut back: Vec<Line> = Vec::new();
        let n = lines.len();
        let mut i: usize = 0;
        proof {
            assert(lines@.take(0) =~= Seq::<Line>::empty());
        }
        while i < n
            invariant
                plane2_wf(pl),
                lines_wf(lines@),
                0 <= i <= n,
                n == lines@.len(),
                front@ == route2_clip_front(pl, lines@.take(i as int)),
                back@ == route2_clip_back(pl, lines@.take(i as int)),
                lines_wf(front@),
                lines_wf(back@),
            decreases n - i,
        {
            let mut second_front: Vec<Line> = Vec::new();
            let mut second_back: Vec<Line> = Vec::new();
            pl.split_lines(
                lines[i],
                &mut front,
                &mut back,
                &mut second_front,
                &mut second_back,
            );
            front.append(&mut second_front);
            back.append(&mut second_back);
            proof {
                assert(lines@.take(i as int + 1).drop_last() =~= lines@.take(i as int));
                assert(lines@.take(i as int + 1).last() == lines@[i as int]);
                assert(front@ =~= route2_clip_front(pl, lines@.take(i as int + 1)));
                assert(back@ =~= route2_clip_back(pl, lines@.take(i as int + 1)));
            }
            i += 1;
        }
        proof {
            assert(lines@.take(n as int) =~= lines@);
        }
        let clipped_front = match &self.front {
            Option::Some(f) => f.clip_lines(&front),
            Option::None => front,
        };
        let mut clipped_back = match &self.back {
            Option::Some(b) => b.clip_lines(&back),
            Option::None => Vec::new(),
        };
        let mut result = clipped_front;
        result.append(&mut clipped_back);
        proof {
            assert(result@ =~= clip2_view(self@, lines@));
        }
        result
    }

    /// Replace every segment list of this tree by what survives
    /// clipping against `bsp`.
    pub fn clip_to(&mut self, bsp: &BspNode)
        requires
            node2_wf(old(self)@),
            node2_wf(bsp@),
        ensures
            final(self)@ == clip_to2_view(old(self)@, bsp@),
            node2_wf(final(self)@),
        decreases *old(self),
    {
        let r = bsp.clip_lines(&self.lines);
        self.lines = r;
        let f = self.front.take();
        match f {
            Option::Some(mut x) => {
                (&mut *x).clip_to(bsp);
                self.front = Option::Some(x);
            },
            Option::None => {},
        }
        let b = self.back.take();
        match b {
            Option::Some(mut x) => {
                (&mut *x).clip_to(bsp);
                self.back = Option::Some(x);
            },
            Option::None => {},
        }
        proof {
            assert(self@ =~= clip_to2_view(old(self)@, bsp@));
        }
    }

    /// Insert the segments into the tree, splitting them down to the
    /// leaves; fails when the tree would grow deeper than `depth`.
    #[verifier::rlimit(100)]
    pub fn build(&mut self, lines: Vec<Line>, depth: u32) -> (r: Result<(), CsgError>)
        requires
            node2_wf(old(self)@),
            lines_wf(lines@),
        ensures
            build2_view(old(self)@, lines@, depth as nat) is Some ==> r is Ok && final(self)@
                == build2_view(old(self)@, lines@, depth as nat).unwrap(),
            build2_view(old(self)@, lines@, depth as nat) is None ==> r == Result::<
                (),
                CsgError,
            >::Err(CsgError::DepthExceeded),
            node2_wf(final(self)@),
        decreases depth,
    {
        if lines.is_empty() {
            return Result::Ok(());
        }
        if depth == 0 {
            return Result::Err(CsgError::DepthExceeded);
        }
        let pl = match &self.plane {
            Option::Some(p) => *p,
            Option::None => lines[0].plane,
        };
        self.plane = Option::Some(pl);
        let ghost m0 = old(self)@;
        let mut front_list: Vec<Line> = Vec::new();
        let mut back_list: Vec<Line> = Vec::new();
        let n = lines.len();
        let mut i: usize = 0;
        proof {
            assert(lines@.take(0) =~= Seq::<Line>::empty());
        }
        while i < n
            invariant
                plane2_wf(pl),
                lines_wf(lines@),
                0 <= i <= n,
                n == lines@.len(),
                self.plane == Option::<Plane>::Some(pl),
                self.front == old(self).front,
                self.back == old(self).back,
                node2_wf(old(self)@),
                self.lines@ == old(self)@.lines + route2_coplanar(pl, lines@.take(i as int)),
                front_list@ == route2_front(pl, lines@.take(i as int)),
                back_list@ == route2_back(pl, lines@.take(i as int)),
                lines_wf(self.lines@),
                lines_wf(front_list@),
                lines_wf(back_list@),
            decreases n - i,
        {
            let mut second: Vec<Line> = Vec::new();
            pl.split_lines(
                lines[i],
                &mut self.lines,
                &mut second,
                &mut front_list,
                &mut back_list,
            );
            self.lines.append(&mut second);
            proof {
                assert(lines@.take(i as int + 1).drop_last() =~= lines@.take(i as int));
                assert(lines@.take(i as int + 1).last() == lines@[i as int]);
                assert(self.lines@ =~= old(self)@.lines + route2_coplanar(
                    pl,
                    lines@.take(i as int + 1),
                ));
                assert(front_list@ =~= route2_front(pl, lines@.take(i as int + 1)));
                assert(back_list@ =~= route2_back(pl, lines@.take(i as int + 1)));
            }
            i += 1;
        }
        proof {
            assert(lines@.take(n as int) =~= lines@);
        }
        let ghost fr_v = front_list@;
        let ghost bk_v = back_list@;
        if !front_list.is_empty() {
            let mut child = match self.front.take() {
                Option::Some(b) => b,
                Option::None => Box::new(
                    BspNode {
                        plane: Option::None,
                        front: Option::None,
                        back: Option::None,
                        lines: Vec::new(),
                    },
                ),
            };
            proof {
                assert(child@ =~= (match m0.front {
                    Option::Some(f) => *f,
                    Option::None => empty_node2_view(),
                }));
            }
            let ghost fc0 = child@;
            let res = (&mut *child).build(front_list, depth - 1);
            self.front = Option::Some(child);
            if res.is_err() {
                proof {
                    assert(build2_view(fc0, fr_v, (depth - 1) as nat) is None);
                    assert(build2_view(m0, lines@, depth as nat) is None);
                }
                return Result::Err(CsgError::DepthExceeded);
            }
        }
        if !back_list.is_empty() {
            let mut child = match self.back.take() {
                Option::Some(b) => b,
                Option::None => Box::new(
                    BspNode {
                        plane: Option::None,
                        front: Option::None,
                        back: Option::None,
                        lines: Vec::new(),
                    },
                ),
            };
            proof {
                assert(child@ =~= (match m0.back {
                    Option::Some(b) => *b,
                    Option::None => empty_node2_view(),
                }));
            }
            let ghost bc0 = child@;
            let res = (&mut *child).build(back_list, depth - 1);
            self.back = Option::Some(child);
            if res.is_err() {
                proof {
                    assert(build2_view(bc0, bk_v, (depth - 1) as nat) is None);
                    assert(build2_view(m0, lines@, depth as nat) is None);
                }
                return Result::Err(CsgError::DepthExceeded);
            }
        }
        proof {
            let mv = build2_view(m0, lines@, depth as nat);
            assert(mv is Some && self@ =~= mv.unwrap());
        }
        Result::Ok(())
    }
}

} // verus!
