//! Index work on meshes: cutting a polygon into a fan of triangles, and
//! finding the triangles across the edges of a triangle.

use vstd::prelude::*;
use crate::ids::{PolygonId, VertexId};
use crate::shield::ShieldPolygon;

verus! {

/// The fan of triangles of a polygon: each has the first corner of the
/// polygon and two corners that follow each other. A polygon of fewer
/// than three corners has none.
pub open spec fn spec_fan<T>(corners: Seq<T>) -> Seq<(T, T, T)> {
    if corners.len() < 3 {
        Seq::empty()
    } else {
        Seq::new((corners.len() - 2) as nat, |i: int| (corners[0], corners[i + 1], corners[i + 2]))
    }
}

/// Cuts a polygon into its fan of triangles.
pub fn fan<T: Copy>(corners: &Vec<T>) -> (r: Vec<(T, T, T)>)
    ensures
        r@ == spec_fan(corners@),
{
    let mut r: Vec<(T, T, T)> = Vec::new();
    if corners.len() < 3 {
        return r;
    }
    let total = corners.len();
    let n = total - 2;
    let mut i: usize = 0;
    while i < n
        invariant
            total == corners@.len() >= 3,
            n == corners@.len() - 2,
            i <= n,
            r@.len() == i,
            forall|j: int|
                0 <= j < i ==> #[trigger] r@[j] == (corners@[0], corners@[j + 1], corners@[j + 2]),
        decreases n - i,
    {
        r.push((corners[0], corners[i + 1], corners[i + 2]));
        i += 1;
    }
    assert(r@ =~= spec_fan(corners@));
    r
}

/// Whether a triangle has the edge from `a` to `b`, in the order of its
/// corners.
pub open spec fn has_edge(p: ShieldPolygon, a: VertexId, b: VertexId) -> bool {
    ||| (p.verts.0 == a && p.verts.1 == b)
    ||| (p.verts.1 == a && p.verts.2 == b)
    ||| (p.verts.2 == a && p.verts.0 == b)
}

/// The last of the first `k` triangles that has the edge from `a` to
/// `b`, or the first triangle of all if none of them has it.
pub open spec fn edge_owner(polys: Seq<ShieldPolygon>, a: VertexId, b: VertexId, k: int) -> PolygonId
    decreases k,
{
    if k <= 0 {
        PolygonId(0)
    } else if has_edge(polys[k - 1], a, b) {
        PolygonId((k - 1) as u32)
    } else {
        edge_owner(polys, a, b, k - 1)
    }
}

/// The triangle with its neighbours: across each of its edges lies the
/// triangle that has the edge the other way round.
pub open spec fn with_neighbors(polys: Seq<ShieldPolygon>, p: ShieldPolygon) -> ShieldPolygon {
    let n = polys.len() as int;
    ShieldPolygon {
        neighbors: (
            edge_owner(polys, p.verts.1, p.verts.0, n),
            edge_owner(polys, p.verts.2, p.verts.1, n),
            edge_owner(polys, p.verts.0, p.verts.2, n),
        ),
        ..p
    }
}

fn same(a: VertexId, b: VertexId) -> (r: bool)
    ensures
        r == (a == b),
{
    a.0 == b.0
}

fn find_owner(polys: &Vec<ShieldPolygon>, a: VertexId, b: VertexId) -> (r: PolygonId)
    requires
        polys@.len() <= u32::MAX,
    ensures
        r == edge_owner(polys@, a, b, polys@.len() as int),
{
    let mut k = polys.len();
    while k > 0
        invariant
            k <= polys@.len() <= u32::MAX,
            edge_owner(polys@, a, b, polys@.len() as int) == edge_owner(polys@, a, b, k as int),
        decreases k,
    {
        let p = &polys[k - 1];
        if (same(p.verts.0, a) && same(p.verts.1, b)) || (same(p.verts.1, a) && same(p.verts.2, b))
            || (same(p.verts.2, a) && same(p.verts.0, b)) {
            return PolygonId((k - 1) as u32);
        }
        k -= 1;
    }
    PolygonId(0)
}

/// Gives every triangle of a mesh its neighbours. The mesh may have as
/// many triangles as an id can name.
pub fn assign_neighbors(polys: &Vec<ShieldPolygon>) -> (r: Vec<ShieldPolygon>)
    requires
        polys@.len() <= u32::MAX,
    ensures
        r@.len() == polys@.len(),
        forall|i: int| 0 <= i < r@.len() ==> #[trigger] r@[i] == with_neighbors(polys@, polys@[i]),
{
    let mut r: Vec<ShieldPolygon> = Vec::new();
    let mut i: usize = 0;
    while i < polys.len()
        invariant
            polys@.len() <= u32::MAX,
            i <= polys@.len(),
            r@.len() == i,
            forall|j: int| 0 <= j < i ==> #[trigger] r@[j] == with_neighbors(polys@, polys@[j]),
        decreases polys@.len() - i,
    {
        let p = polys[i];
        let n0 = find_owner(polys, p.verts.1, p.verts.0);
        let n1 = find_owner(polys, p.verts.2, p.verts.1);
        let n2 = find_owner(polys, p.verts.0, p.verts.2);
        r.push(ShieldPolygon { normal: p.normal, verts: p.verts, neighbors: (n0, n1, n2) });
        i += 1;
    }
    r
}

/// A neighbour that is found has the edge the other way round.
pub proof fn lemma_edge_owner(polys: Seq<ShieldPolygon>, a: VertexId, b: VertexId, k: int)
    requires
        0 <= k <= polys.len() <= u32::MAX,
    ensures
        edge_owner(polys, a, b, k).0 < k || k == 0,
        (exists|i: int| 0 <= i < k && has_edge(polys[i], a, b)) ==> has_edge(
            polys[edge_owner(polys, a, b, k).0 as int],
            a,
            b,
        ),
        (forall|i: int| 0 <= i < k ==> !has_edge(polys[i], a, b)) ==> edge_owner(polys, a, b, k)
            == PolygonId(0),
    decreases k,
{
    if k > 0 && !has_edge(polys[k - 1], a, b) {
        lemma_edge_owner(polys, a, b, k - 1);
        if exists|i: int| 0 <= i < k && has_edge(polys[i], a, b) {
            let i = choose|i: int| 0 <= i < k && has_edge(polys[i], a, b);
            assert(i < k - 1);
            assert(0 <= i < k - 1 && has_edge(polys[i], a, b));
        }
    }
}

} // verus!
