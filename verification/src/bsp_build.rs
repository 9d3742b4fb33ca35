//! Building a tree over a set of polygons, and recomputing the boxes of a
//! tree from its polygons.
//!
//! Which side of a plane a polygon lies on is a question about real
//! numbers. The codec does not compute with them: the caller hands in the
//! test, as a function from a plane and the corners of a polygon to a side.

use vstd::prelude::*;
use crate::bsp::{
    join_boxes, node_view, spec_join_boxes, BspNode, Polygon, SpecBspNode, SpecPolygon,
};
use crate::bytes::{decoded, reversed};
use crate::error::{DecodeError, Violation};
use crate::geom::{lemma_union_contains, tight_box_of, BoundingBox, Vec3d};

verus! {

/// A side test in the grammar: the plane's normal, a point of the plane,
/// and the corners of the polygon in question.
pub type Side = spec_fn(Vec3d, Vec3d, Seq<Vec3d>) -> bool;

/// What is asked of an executable side test: it can be called on
/// anything, and its answer depends on the values it is given alone.
pub open spec fn classifier_ok<F: Fn(Vec3d, Vec3d, &Vec<Vec3d>) -> bool>(f: &F) -> bool {
    &&& forall|n: Vec3d, p: Vec3d, c: &Vec<Vec3d>| call_requires(f, (n, p, c))
    &&& forall|n: Vec3d, p: Vec3d, c1: &Vec<Vec3d>, c2: &Vec<Vec3d>, r1: bool, r2: bool|
        c1@ == c2@ && #[trigger] call_ensures(f, (n, p, c1), r1) && #[trigger] call_ensures(
            f,
            (n, p, c2),
            r2,
        ) ==> r1 == r2
}

/// The side test that an executable one computes.
pub open spec fn side_of<F: Fn(Vec3d, Vec3d, &Vec<Vec3d>) -> bool>(f: &F) -> Side {
    |n: Vec3d, p: Vec3d, c: Seq<Vec3d>|
        exists|cv: &Vec<Vec3d>| cv@ == c && #[trigger] call_ensures(f, (n, p, cv), true)
}

/// An answer of the executable test is the answer of [`side_of`].
proof fn lemma_side_of<F: Fn(Vec3d, Vec3d, &Vec<Vec3d>) -> bool>(
    f: &F,
    n: Vec3d,
    p: Vec3d,
    c: &Vec<Vec3d>,
    r: bool,
)
    requires
        classifier_ok(f),
        call_ensures(f, (n, p, c), r),
    ensures
        r == side_of(f)(n, p, c@),
{
    if side_of(f)(n, p, c@) {
        let cv = choose|cv: &Vec<Vec3d>| cv@ == c@ && #[trigger] call_ensures(f, (n, p, cv), true);
        assert(call_ensures(f, (n, p, cv), true));
    }
}

/// The polygons of `rest` that lie in front of (or, with `want` false,
/// behind) the plane of `p`, in their order.
pub open spec fn select(
    verts: Seq<Vec3d>,
    p: SpecPolygon,
    rest: Seq<SpecPolygon>,
    side: Side,
    want: bool,
) -> Seq<SpecPolygon>
    decreases rest.len(),
{
    if rest.len() == 0 {
        Seq::empty()
    } else {
        let init = select(verts, p, rest.drop_last(), side, want);
        let q = rest.last();
        if side(p.normal, p.plane_point(verts), q.corners(verts)) == want {
            init.push(q)
        } else {
            init
        }
    }
}

/// Every polygon goes to one side.
pub proof fn lemma_select_len(verts: Seq<Vec3d>, p: SpecPolygon, rest: Seq<SpecPolygon>, side: Side)
    ensures
        select(verts, p, rest, side, true).len() + select(verts, p, rest, side, false).len()
            == rest.len(),
    decreases rest.len(),
{
    if rest.len() > 0 {
        lemma_select_len(verts, p, rest.drop_last(), side);
    }
}

/// The two sets a split divides its polygons into. The first polygon is
/// the partitioning one; the others go in front of its plane or behind it.
/// It stays with those in front, unless nothing lies behind: then it
/// stands alone in front, so that both sets are smaller than the whole.
pub open spec fn partition(verts: Seq<Vec3d>, polys: Seq<SpecPolygon>, side: Side) -> (
    Seq<SpecPolygon>,
    Seq<SpecPolygon>,
)
    recommends
        polys.len() >= 2,
{
    let p = polys[0];
    let rest = polys.skip(1);
    let f = select(verts, p, rest, side, true);
    let b = select(verts, p, rest, side, false);
    if b.len() == 0 {
        (seq![p], f)
    } else {
        (seq![p] + f, b)
    }
}

/// Both sets of a partition are non-empty and smaller than the whole, and
/// together they hold as many polygons as the whole.
pub proof fn lemma_partition_sizes(verts: Seq<Vec3d>, polys: Seq<SpecPolygon>, side: Side)
    requires
        polys.len() >= 2,
    ensures
        0 < partition(verts, polys, side).0.len() < polys.len(),
        0 < partition(verts, polys, side).1.len() < polys.len(),
        partition(verts, polys, side).0.len() + partition(verts, polys, side).1.len()
            == polys.len(),
{
    lemma_select_len(verts, polys[0], polys.skip(1), side);
}

/// The tree over a set of polygons: nothing for no polygon, a leaf for
/// one, and else a split over the trees of the two sets of the partition.
/// A leaf's box is the tight box of its corners, a split's box the union
/// of the boxes of its children.
pub open spec fn rebuild_tree(verts: Seq<Vec3d>, polys: Seq<SpecPolygon>, side: Side) -> SpecBspNode
    decreases polys.len(),
{
    if polys.len() == 0 {
        SpecBspNode::Empty
    } else if polys.len() == 1 {
        SpecBspNode::Leaf { bbox: polys[0].tight_bbox(verts), poly: polys[0] }
    } else {
        let (f, b) = partition(verts, polys, side);
        if f.len() < polys.len() && b.len() < polys.len() {
            let front = rebuild_tree(verts, f, side);
            let back = rebuild_tree(verts, b, side);
            SpecBspNode::Split {
                bbox: spec_join_boxes(front.bbox(), back.bbox()),
                front: Box::new(front),
                back: Box::new(back),
            }
        } else {
            SpecBspNode::Empty
        }
    }
}

/// Whether every polygon names only vertices of the pool.
pub open spec fn all_in_range(verts: Seq<Vec3d>, polys: Seq<SpecPolygon>) -> bool {
    forall|i: int| 0 <= i < polys.len() ==> (#[trigger] polys[i]).in_range(verts)
}

/// The outcome of a rebuild: the tree, or the refusal of a polygon that
/// names a vertex outside the pool.
pub open spec fn spec_rebuild(verts: Seq<Vec3d>, polys: Seq<SpecPolygon>, side: Side) -> Result<
    SpecBspNode,
    DecodeError,
> {
    if all_in_range(verts, polys) {
        Ok(rebuild_tree(verts, polys, side))
    } else {
        Err(DecodeError::StructuralViolation(Violation::VertexOutOfRange))
    }
}

// ---------------------------------------------------------------------
// What holds of a rebuilt tree
// ---------------------------------------------------------------------

/// A rebuilt tree has one leaf for each polygon it was built over, and
/// each leaf holds one polygon.
pub proof fn lemma_rebuild_leaf_count(verts: Seq<Vec3d>, polys: Seq<SpecPolygon>, side: Side)
    ensures
        rebuild_tree(verts, polys, side).leaf_count() == polys.len(),
        rebuild_tree(verts, polys, side).polygons().len() == polys.len(),
        polys.len() > 0 ==> !(rebuild_tree(verts, polys, side) is Empty),
    decreases polys.len(),
{
    if polys.len() >= 2 {
        lemma_partition_sizes(verts, polys, side);
        let (f, b) = partition(verts, polys, side);
        lemma_rebuild_leaf_count(verts, f, side);
        lemma_rebuild_leaf_count(verts, b, side);
    }
}

/// In a rebuilt tree the box of every split holds the boxes of both of
/// its children.
pub proof fn lemma_rebuild_boxes_nested(verts: Seq<Vec3d>, polys: Seq<SpecPolygon>, side: Side)
    ensures
        rebuild_tree(verts, polys, side).boxes_nested(),
    decreases polys.len(),
{
    if polys.len() >= 2 {
        lemma_partition_sizes(verts, polys, side);
        let (f, b) = partition(verts, polys, side);
        lemma_rebuild_boxes_nested(verts, f, side);
        lemma_rebuild_boxes_nested(verts, b, side);
        let front = rebuild_tree(verts, f, side);
        let back = rebuild_tree(verts, b, side);
        lemma_join_holds(front.bbox(), back.bbox());
    }
}

/// The box over two children holds the box of each child that has one.
pub proof fn lemma_join_holds(a: Option<BoundingBox>, b: Option<BoundingBox>)
    ensures
        a matches Some(x) ==> spec_join_boxes(a, b).contains(x),
        b matches Some(y) ==> spec_join_boxes(a, b).contains(y),
{
    if a is Some && b is Some {
        lemma_union_contains(a->Some_0, b->Some_0);
    }
}

// ---------------------------------------------------------------------
// Recomputing the boxes of a tree
// ---------------------------------------------------------------------

/// The tree with every box recomputed bottom-up: a leaf's box is the
/// tight box of its corners, a split's box the union of the boxes of its
/// children.
pub open spec fn recalculated(n: SpecBspNode, verts: Seq<Vec3d>) -> SpecBspNode
    decreases n,
{
    match n {
        SpecBspNode::Split { bbox, front, back } => {
            let f = recalculated(*front, verts);
            let b = recalculated(*back, verts);
            SpecBspNode::Split {
                bbox: spec_join_boxes(f.bbox(), b.bbox()),
                front: Box::new(f),
                back: Box::new(b),
            }
        },
        SpecBspNode::Leaf { bbox, poly } => SpecBspNode::Leaf { bbox: poly.tight_bbox(verts), poly },
        SpecBspNode::Empty => SpecBspNode::Empty,
    }
}

/// The outcome of recomputing the boxes: the tree, or the refusal of a
/// polygon that names a vertex outside the pool.
pub open spec fn spec_recalculate_bboxes(n: SpecBspNode, verts: Seq<Vec3d>) -> Result<
    SpecBspNode,
    DecodeError,
> {
    if n.in_range(verts) {
        Ok(recalculated(n, verts))
    } else {
        Err(DecodeError::StructuralViolation(Violation::VertexOutOfRange))
    }
}

/// After the boxes of a tree are recomputed, the box of every split holds
/// the boxes of both of its children, and the polygons are as before.
pub proof fn lemma_recalculated_boxes_nested(n: SpecBspNode, verts: Seq<Vec3d>)
    ensures
        recalculated(n, verts).boxes_nested(),
        recalculated(n, verts).polygons() == n.polygons(),
        recalculated(n, verts) is Empty <==> n is Empty,
    decreases n,
{
    match n {
        SpecBspNode::Split { bbox, front, back } => {
            lemma_recalculated_boxes_nested(*front, verts);
            lemma_recalculated_boxes_nested(*back, verts);
            lemma_join_holds(recalculated(*front, verts).bbox(), recalculated(*back, verts).bbox());
        },
        _ => {},
    }
}

// ---------------------------------------------------------------------
// Executable
// ---------------------------------------------------------------------

impl Polygon {
    /// Whether every corner names a vertex of the pool.
    pub fn in_range(&self, verts: &Vec<Vec3d>) -> (r: bool)
        ensures
            r == self.deep_view().in_range(verts@),
    {
        let n = verts.len();
        let mut i: usize = 0;
        while i < self.verts.len()
            invariant
                n == verts@.len(),
                i <= self.verts@.len(),
                forall|j: int| 0 <= j < i ==> (#[trigger] self.verts@[j]).vertex_id.0 < n,
            decreases self.verts@.len() - i,
        {
            if self.verts[i].vertex_id.0 as usize >= n {
                assert(!(self.deep_view().verts[i as int].vertex_id.0 < verts@.len()));
                return false;
            }
            i += 1;
        }
        true
    }

    /// The positions of the corners.
    pub fn corners(&self, verts: &Vec<Vec3d>) -> (c: Vec<Vec3d>)
        requires
            self.deep_view().in_range(verts@),
        ensures
            c@ == self.deep_view().corners(verts@),
    {
        let mut c: Vec<Vec3d> = Vec::new();
        let mut i: usize = 0;
        while i < self.verts.len()
            invariant
                i <= self.verts@.len(),
                self.deep_view().in_range(verts@),
                c@ == self.deep_view().corners(verts@).take(i as int),
            decreases self.verts@.len() - i,
        {
            assert(self.deep_view().verts[i as int].vertex_id.0 < verts@.len());
            c.push(verts[self.verts[i].vertex_id.0 as usize]);
            i += 1;
            assert(c@ =~= self.deep_view().corners(verts@).take(i as int));
        }
        assert(c@ =~= self.deep_view().corners(verts@));
        c
    }

    /// The tight box of the corners.
    pub fn tight_bbox(&self, verts: &Vec<Vec3d>) -> (b: BoundingBox)
        requires
            self.deep_view().in_range(verts@),
        ensures
            b == self.deep_view().tight_bbox(verts@),
    {
        let c = self.corners(verts);
        tight_box_of(&c)
    }

    /// A point of the polygon's plane.
    pub fn plane_point(&self, verts: &Vec<Vec3d>) -> (p: Vec3d)
        requires
            self.deep_view().in_range(verts@),
        ensures
            p == self.deep_view().plane_point(verts@),
    {
        if self.verts.len() > 0 {
            assert(self.deep_view().verts[0].vertex_id.0 < verts@.len());
            verts[self.verts[0].vertex_id.0 as usize]
        } else {
            Vec3d::zero()
        }
    }
}

/// Whether every polygon names only vertices of the pool.
fn polys_in_range(verts: &Vec<Vec3d>, polys: &Vec<Polygon>) -> (r: bool)
    ensures
        r == all_in_range(verts@, polys.deep_view()),
{
    let mut i: usize = 0;
    while i < polys.len()
        invariant
            i <= polys@.len(),
            forall|j: int| 0 <= j < i ==> (#[trigger] polys.deep_view()[j]).in_range(verts@),
        decreases polys@.len() - i,
    {
        assert(polys.deep_view()[i as int] == polys@[i as int].deep_view());
        if !polys[i].in_range(verts) {
            assert(!polys.deep_view()[i as int].in_range(verts@));
            return false;
        }
        assert(polys.deep_view()[i as int].in_range(verts@));
        i += 1;
    }
    true
}

fn build<F: Fn(Vec3d, Vec3d, &Vec<Vec3d>) -> bool>(
    verts: &Vec<Vec3d>,
    polys: Vec<Polygon>,
    in_front: &F,
) -> (t: BspNode)
    requires
        classifier_ok(in_front),
        all_in_range(verts@, polys.deep_view()),
    ensures
        t.deep_view() == rebuild_tree(verts@, polys.deep_view(), side_of(in_front)),
    decreases polys@.len(),
{
    let ghost all = polys.deep_view();
    let ghost side = side_of(in_front);
    let n = polys.len();
    if n == 0 {
        return BspNode::Empty;
    }
    let mut rev = reversed(polys);
    let ghost rv0 = rev.deep_view();
    assert(rv0 =~= all.reverse());
    assert(rv0.len() == rev@.len() && all.len() == n);
    let first = rev.pop().unwrap();
    assert(first.deep_view() == rv0[n - 1]);
    assert(first.deep_view() == all[0]);
    assert forall|i: int| 0 <= i < rev@.len() implies rev.deep_view()[i] == all[n - 1 - i] by {
        assert(rev.deep_view()[i] == rv0[i]);
    }
    assert(all[0].in_range(verts@));
    if n == 1 {
        let bbox = first.tight_bbox(verts);
        return BspNode::Leaf { bbox, poly: first };
    }
    let normal = first.normal;
    let point = first.plane_point(verts);
    let ghost rest = all.skip(1);
    let mut front: Vec<Polygon> = Vec::new();
    let mut back: Vec<Polygon> = Vec::new();
    let mut k: usize = 0;
    assert(rest.take(0) =~= Seq::<SpecPolygon>::empty());
    assert(front.deep_view() =~= Seq::<SpecPolygon>::empty());
    assert(back.deep_view() =~= Seq::<SpecPolygon>::empty());
    while rev.len() > 0
        invariant
            classifier_ok(in_front),
            side == side_of(in_front),
            all_in_range(verts@, all),
            rest == all.skip(1),
            normal == all[0].normal,
            point == all[0].plane_point(verts@),
            all.len() == n >= 2,
            k + rev@.len() == rest.len(),
            forall|i: int| 0 <= i < rev@.len() ==> rev.deep_view()[i] == all[n - 1 - i],
            front.deep_view() == select(verts@, all[0], rest.take(k as int), side, true),
            back.deep_view() == select(verts@, all[0], rest.take(k as int), side, false),
        decreases rev@.len(),
    {
        let ghost fb = front.deep_view();
        let ghost bb = back.deep_view();
        let ghost rv = rev.deep_view();
        let q = rev.pop().unwrap();
        proof {
            assert(q.deep_view() == rv[rv.len() - 1]);
            assert(q.deep_view() == rest[k as int]);
            assert(all[k + 1].in_range(verts@));
            let t = rest.take(k + 1);
            assert(t.drop_last() =~= rest.take(k as int));
            assert(t.last() == rest[k as int]);
        }
        let c = q.corners(verts);
        let f = in_front(normal, point, &c);
        proof {
            lemma_side_of(in_front, normal, point, &c, f);
        }
        if f {
            front.push(q);
            assert(front.deep_view() =~= fb.push(q.deep_view()));
        } else {
            back.push(q);
            assert(back.deep_view() =~= bb.push(q.deep_view()));
        }
        k += 1;
        assert forall|i: int| 0 <= i < rev@.len() implies rev.deep_view()[i] == all[n - 1 - i] by {
            assert(rev.deep_view()[i] == rv[i]);
        }
    }
    proof {
        assert(rest.take(k as int) =~= rest);
        lemma_partition_sizes(verts@, all, side);
    }
    let mut head: Vec<Polygon> = Vec::new();
    head.push(first);
    assert(head.deep_view() =~= seq![all[0]]);
    let (f, b) = if back.len() == 0 {
        proof {
            assert forall|i: int| 0 <= i < front.deep_view().len() implies (
            #[trigger] front.deep_view()[i]).in_range(verts@) by {
                lemma_select_in_range(verts@, all[0], rest, side, true, i);
            }
        }
        (build(verts, head, in_front), build(verts, front, in_front))
    } else {
        let ghost fv = front.deep_view();
        head.append(&mut front);
        proof {
            assert(head.deep_view() =~= seq![all[0]] + fv);
            assert forall|i: int| 0 <= i < head.deep_view().len() implies (
            #[trigger] head.deep_view()[i]).in_range(verts@) by {
                if i > 0 {
                    lemma_select_in_range(verts@, all[0], rest, side, true, i - 1);
                }
            }
            assert forall|i: int| 0 <= i < back.deep_view().len() implies (
            #[trigger] back.deep_view()[i]).in_range(verts@) by {
                lemma_select_in_range(verts@, all[0], rest, side, false, i);
            }
        }
        (build(verts, head, in_front), build(verts, back, in_front))
    };
    let bbox = join_boxes(f.bbox(), b.bbox());
    BspNode::Split { bbox, front: Box::new(f), back: Box::new(b) }
}

/// What is selected was there to select from.
proof fn lemma_select_in_range(
    verts: Seq<Vec3d>,
    p: SpecPolygon,
    rest: Seq<SpecPolygon>,
    side: Side,
    want: bool,
    i: int,
)
    requires
        forall|j: int| 0 <= j < rest.len() ==> (#[trigger] rest[j]).in_range(verts),
        0 <= i < select(verts, p, rest, side, want).len(),
    ensures
        select(verts, p, rest, side, want)[i].in_range(verts),
    decreases rest.len(),
{
    if rest.len() > 0 {
        let init = select(verts, p, rest.drop_last(), side, want);
        if i < init.len() {
            assert forall|j: int| 0 <= j < rest.drop_last().len() implies (
            #[trigger] rest.drop_last()[j]).in_range(verts) by {
                assert(rest.drop_last()[j] == rest[j]);
            }
            lemma_select_in_range(verts, p, rest.drop_last(), side, want, i);
        } else {
            assert(rest.last() == rest[rest.len() - 1]);
        }
    }
}

/// Builds a tree of single-polygon leaves over the polygons. The first
/// polygon of a set divides the others by the side of its plane on which
/// `in_front` finds them.
pub fn recalculate<F: Fn(Vec3d, Vec3d, &Vec<Vec3d>) -> bool>(
    verts: &Vec<Vec3d>,
    polys: Vec<Polygon>,
    in_front: &F,
) -> (r: Result<BspNode, DecodeError>)
    requires
        classifier_ok(in_front),
    ensures
        decoded(r, spec_rebuild(verts@, polys.deep_view(), side_of(in_front))),
{
    if !polys_in_range(verts, &polys) {
        return Err(DecodeError::StructuralViolation(Violation::VertexOutOfRange));
    }
    Ok(build(verts, polys, in_front))
}

impl BspNode {
    /// Whether every polygon of the tree names only vertices of a pool of
    /// `n` vertices.
    pub fn in_range(&self, verts: &Vec<Vec3d>) -> (r: bool)
        ensures
            r == self.deep_view().in_range(verts@),
        decreases self,
    {
        match self {
            BspNode::Split { front, back, .. } => {
                let f = front.in_range(verts);
                let b = back.in_range(verts);
                assert(self.deep_view().in_range(verts@) == (node_view(**front).in_range(verts@)
                    && node_view(**back).in_range(verts@)));
                f && b
            },
            BspNode::Leaf { poly, .. } => poly.in_range(verts),
            BspNode::Empty => true,
        }
    }

    fn recalculated(self, verts: &Vec<Vec3d>) -> (t: BspNode)
        requires
            self.deep_view().in_range(verts@),
        ensures
            t.deep_view() == recalculated(self.deep_view(), verts@),
        decreases self,
    {
        match self {
            BspNode::Split { bbox, front, back } => {
                let f = (*front).recalculated(verts);
                let b = (*back).recalculated(verts);
                let bbox = join_boxes(f.bbox(), b.bbox());
                BspNode::Split { bbox, front: Box::new(f), back: Box::new(b) }
            },
            BspNode::Leaf { bbox, poly } => {
                let bbox = poly.tight_bbox(verts);
                BspNode::Leaf { bbox, poly }
            },
            BspNode::Empty => BspNode::Empty,
        }
    }

    /// Recomputes every box of the tree from the polygons, bottom-up.
    pub fn recalculate_bboxes(self, verts: &Vec<Vec3d>) -> (r: Result<BspNode, DecodeError>)
        ensures
            decoded(r, spec_recalculate_bboxes(self.deep_view(), verts@)),
    {
        if !self.in_range(verts) {
            return Err(DecodeError::StructuralViolation(Violation::VertexOutOfRange));
        }
        Ok(self.recalculated(verts))
    }
}

} // verus!
