//! What holds of the subobject tree codec: what the writer emits, the
//! reader reads back; the per-vertex normal counts add up; the offsets of
//! a split point behind its header and inside its chunk.

use vstd::prelude::*;
use crate::bsp::{SpecBspData, SpecBspNode, SpecPolygon, PolyVertex};
use crate::bsp_build::Side;
use crate::bsp_read::{
    spec_bsp_data, spec_bsp_node, spec_child, spec_chunk_header, spec_poly_vertex, spec_poly_verts,
    spec_pools, spec_split, spec_split_box, spec_split_offsets_at, spec_tmappoly2, VertexLayout,
    DEFFPOINTS, SORTNORM2, TMAPPOLY2,
};
use crate::bsp_write::{
    back_offset, bsp_data_bytes, bsp_data_encodable, child_bytes, chunk_bytes, front_offset,
    leaf_bytes, leaf_content, leaf_encodable, lemma_leaf_content_len, lemma_norm_counts_len,
    lemma_poly_verts_len, lemma_pool_len, lemma_vecs_len, node_bytes, node_encodable, node_tail,
    norm_counts, norm_start, poly_vertex_bytes, poly_verts_bytes, pool_bytes, pools_bytes,
    pools_encodable, pools_offset, split_header, split_header_len, split_size, vecs_bytes,
};
use crate::bytes::{
    align_pad, has_bytes, le_u32, lemma_stands_split, lemma_u32_stands, spec_list_n, spec_u32,
    stands_at, u32_bytes, zeros,
};
use crate::error::DecodeError;
use crate::geom::{
    bbox_bytes, lemma_bbox_roundtrip, lemma_vec3d_roundtrip, spec_bbox, spec_vec3d, vec3d_bytes,
    BoundingBox, Vec3d,
};

use crate::version::Version;

verus! {

/// A point that stands at a position is the point read there.
pub proof fn lemma_vec3d_stands(s: Seq<u8>, pos: int, p: Vec3d)
    requires
        stands_at(s, pos, vec3d_bytes(p)),
    ensures
        spec_vec3d(s, pos) == Ok::<(Vec3d, int), DecodeError>((p, pos + 12)),
        has_bytes(s, pos, 12),
{
    lemma_vec3d_roundtrip(p, s, pos);
}

/// A box that stands at a position is the box read there.
pub proof fn lemma_bbox_stands(s: Seq<u8>, pos: int, b: BoundingBox)
    requires
        stands_at(s, pos, bbox_bytes(b)),
    ensures
        spec_bbox(s, pos) == Ok::<(BoundingBox, int), DecodeError>((b, pos + 24)),
        has_bytes(s, pos, 24),
{
    assert(vec3d_bytes(b.min).len() == 12);
    lemma_bbox_roundtrip(b, s, pos);
}

/// A corner with wide indices reads back.
proof fn lemma_wide_vertex_stands(s: Seq<u8>, pos: int, x: PolyVertex)
    requires
        stands_at(s, pos, poly_vertex_bytes(x, VertexLayout::Wide)),
    ensures
        spec_poly_vertex(s, pos, VertexLayout::Wide) == Ok::<(PolyVertex, int), DecodeError>(
            (x, pos + 16),
        ),
{
    let a = u32_bytes(x.vertex_id.0);
    let b = u32_bytes(x.normal_id.0);
    let c = u32_bytes(x.u);
    let d = u32_bytes(x.v);
    assert(poly_vertex_bytes(x, VertexLayout::Wide) == ((a + b) + c) + d);
    lemma_stands_split(s, pos, (a + b) + c, d);
    lemma_stands_split(s, pos, a + b, c);
    lemma_stands_split(s, pos, a, b);
    lemma_u32_stands(s, pos, x.vertex_id.0);
    lemma_u32_stands(s, pos + 4, x.normal_id.0);
    lemma_u32_stands(s, pos + 8, x.u);
    lemma_u32_stands(s, pos + 12, x.v);
}

/// A run of corners with wide indices reads back.
proof fn lemma_wide_verts_stand(s: Seq<u8>, pos: int, xs: Seq<PolyVertex>)
    requires
        stands_at(s, pos, poly_verts_bytes(xs, VertexLayout::Wide)),
    ensures
        spec_poly_verts(s, pos, xs.len(), VertexLayout::Wide) == Ok::<
            (Seq<PolyVertex>, int),
            DecodeError,
        >((xs, pos + 16 * xs.len())),
    decreases xs.len(),
{
    if xs.len() == 0 {
        assert(xs =~= Seq::<PolyVertex>::empty());
    } else {
        let init = xs.drop_last();
        lemma_poly_verts_len(init, VertexLayout::Wide);
        lemma_stands_split(
            s,
            pos,
            poly_verts_bytes(init, VertexLayout::Wide),
            poly_vertex_bytes(xs.last(), VertexLayout::Wide),
        );
        lemma_wide_verts_stand(s, pos, init);
        lemma_wide_vertex_stands(s, pos + 16 * init.len(), xs.last());
        assert(init.push(xs.last()) =~= xs);
    }
}

/// The head of a chunk that stands in the buffer is the head read there.
proof fn lemma_chunk_header_stands(s: Seq<u8>, start: int, tag: u32, size: u32, rest: Seq<u8>)
    requires
        stands_at(s, start, u32_bytes(tag) + u32_bytes(size) + rest),
        start + size <= s.len(),
    ensures
        spec_chunk_header(s, start, false) == Ok::<(u32, int, int), DecodeError>(
            (tag, start + 8, start + size),
        ),
        stands_at(s, start + 8, rest),
{
    lemma_stands_split(s, start, u32_bytes(tag) + u32_bytes(size), rest);
    lemma_stands_split(s, start, u32_bytes(tag), u32_bytes(size));
    lemma_u32_stands(s, start, tag);
    lemma_u32_stands(s, start + 4, size);
}

/// A leaf in the current layout reads back.
proof fn lemma_leaf_stands(s: Seq<u8>, start: int, bbox: BoundingBox, poly: SpecPolygon)
    requires
        52 + 16 * poly.verts.len() <= u32::MAX,
        stands_at(s, start, chunk_bytes(TMAPPOLY2, leaf_content(bbox, poly))),
    ensures
        spec_chunk_header(s, start, false) == Ok::<(u32, int, int), DecodeError>(
            (TMAPPOLY2, start + 8, start + 52 + 16 * poly.verts.len()),
        ),
        spec_tmappoly2(s, start + 8) == Ok::<SpecBspNode, DecodeError>(
            SpecBspNode::Leaf { bbox, poly },
        ),
{
    let content = leaf_content(bbox, poly);
    lemma_leaf_content_len(bbox, poly);
    let size = (8 + content.len()) as u32;
    lemma_chunk_header_stands(s, start, TMAPPOLY2, size, content);
    let body = start + 8;
    let a = bbox_bytes(bbox);
    let b = vec3d_bytes(poly.normal);
    let c = u32_bytes(poly.texture.0);
    let d = u32_bytes(poly.verts.len() as u32);
    let e = poly_verts_bytes(poly.verts, VertexLayout::Wide);
    assert(content == (((a + b) + c) + d) + e);
    lemma_stands_split(s, body, ((a + b) + c) + d, e);
    lemma_stands_split(s, body, (a + b) + c, d);
    lemma_stands_split(s, body, a + b, c);
    lemma_stands_split(s, body, a, b);
    assert(a.len() == 24 && b.len() == 12);
    lemma_bbox_stands(s, body, bbox);
    lemma_vec3d_stands(s, body + 24, poly.normal);
    lemma_u32_stands(s, body + 36, poly.texture.0);
    lemma_u32_stands(s, body + 40, poly.verts.len() as u32);
    lemma_wide_verts_stand(s, body + 44, poly.verts);
}

/// What a non-empty node writes is not empty.
pub proof fn lemma_node_bytes_nonempty(n: SpecBspNode, v: Version)
    requires
        !(n is Empty),
    ensures
        node_bytes(n, v).len() >= 8,
{
    reveal(split_header);
    match n {
        SpecBspNode::Split { bbox, front, back } => {},
        SpecBspNode::Leaf { bbox, poly } => {
            lemma_leaf_content_len(bbox, poly);
        },
        SpecBspNode::Empty => {},
    }
}

/// The header of a split takes the bytes its layout says.
pub proof fn lemma_split_header_len(bbox: BoundingBox, size: u32, front: u32, back: u32, v: Version)
    ensures
        split_header(bbox, size, front, back, v).len() == split_header_len(v),
{
    reveal(split_header);
}

/// The node at `start` of `s` reads as `n`.
#[verifier::opaque]
pub open spec fn node_reads(
    s: Seq<u8>,
    start: int,
    verts: Seq<Vec3d>,
    v: Version,
    side: Side,
    n: SpecBspNode,
) -> bool {
    spec_bsp_node(s, start, verts, v, side) == Ok::<SpecBspNode, DecodeError>(n)
}

/// The child that the split at `start` names by `offset` reads as `n`.
#[verifier::opaque]
pub open spec fn child_reads(
    s: Seq<u8>,
    start: int,
    offset: u32,
    verts: Seq<Vec3d>,
    v: Version,
    side: Side,
    n: SpecBspNode,
) -> bool {
    spec_child(s, start, offset, verts, v, side) == Ok::<SpecBspNode, DecodeError>(n)
}

/// A split reads back once its children do.
proof fn lemma_split_reads(
    s: Seq<u8>,
    start: int,
    bbox: BoundingBox,
    front: SpecBspNode,
    back: SpecBspNode,
    size: u32,
    fo: u32,
    bo: u32,
    verts: Seq<Vec3d>,
    v: Version,
    side: Side,
)
    requires
        v.current_tree(),
        stands_at(s, start, split_header(bbox, size, fo, bo, v)),
        start + size <= s.len(),
        child_reads(s, start, fo, verts, v, side, front),
        child_reads(s, start, bo, verts, v, side, back),
    ensures
        node_reads(
            s,
            start,
            verts,
            v,
            side,
            SpecBspNode::Split { bbox, front: Box::new(front), back: Box::new(back) },
        ),
{
    reveal(node_reads);
    reveal(child_reads);
    lemma_split_fields(s, start, bbox, size, fo, bo, v);
    assert(spec_split(s, start, start + 8, false, verts, v, side) == Ok::<SpecBspNode, DecodeError>(
        SpecBspNode::Split { bbox, front: Box::new(front), back: Box::new(back) },
    ));
}

/// A child reads back where the parent's offset points.
proof fn lemma_child_reads(
    child: SpecBspNode,
    s: Seq<u8>,
    start: int,
    offset: int,
    verts: Seq<Vec3d>,
    v: Version,
    side: Side,
)
    requires
        0 <= start,
        0 <= offset <= u32::MAX,
        child is Empty <==> offset == 0,
        !(child is Empty) ==> start + offset <= s.len() && node_reads(
            s,
            start + offset,
            verts,
            v,
            side,
            child,
        ),
    ensures
        child_reads(s, start, offset as u32, verts, v, side, child),
{
    reveal(node_reads);
    reveal(child_reads);
}

/// A leaf reads back where it stands.
proof fn lemma_leaf_reads(
    s: Seq<u8>,
    start: int,
    bbox: BoundingBox,
    poly: SpecPolygon,
    verts: Seq<Vec3d>,
    v: Version,
    side: Side,
)
    requires
        v.current_tree(),
        leaf_encodable(poly, v),
        stands_at(s, start, leaf_bytes(bbox, poly, v)),
    ensures
        node_reads(s, start, verts, v, side, SpecBspNode::Leaf { bbox, poly }),
{
    reveal(node_reads);
    lemma_leaf_stands(s, start, bbox, poly);
}

/// The pieces of a split that stands in a buffer: its header, its front
/// child, its back child.
proof fn lemma_split_pieces(s: Seq<u8>, start: int, n: SpecBspNode, v: Version)
    requires
        v.current_tree(),
        n is Split,
        stands_at(s, start, node_bytes(n, v)),
    ensures
        ({
            let f = child_bytes(*n->Split_front, v);
            let b = child_bytes(*n->Split_back, v);
            let size = split_size(f.len() as int, b.len() as int, v);
            let fo = front_offset(*n->Split_front, v);
            let bo = back_offset(f.len() as int, *n->Split_back, v);
            &&& stands_at(s, start, split_header(n->Split_bbox, size as u32, fo as u32, bo as u32, v))
            &&& stands_at(s, start + 40, f)
            &&& stands_at(s, start + 40 + f.len(), b)
            &&& size == 40 + f.len() + b.len()
            &&& fo == (if *n->Split_front is Empty { 0int } else { 40int })
            &&& bo == (if *n->Split_back is Empty { 0int } else { 40 + f.len() as int })
            &&& !(*n->Split_front is Empty) ==> f == node_bytes(*n->Split_front, v) && f.len() >= 8
            &&& !(*n->Split_back is Empty) ==> b == node_bytes(*n->Split_back, v) && b.len() >= 8
        }),
{
    let front = *n->Split_front;
    let back = *n->Split_back;
    let f = child_bytes(front, v);
    let b = child_bytes(back, v);
    let size = split_size(f.len() as int, b.len() as int, v) as u32;
    let fo = front_offset(front, v);
    let bo = back_offset(f.len() as int, back, v);
    let h = split_header(n->Split_bbox, size, fo as u32, bo as u32, v);
    lemma_split_header_len(n->Split_bbox, size, fo as u32, bo as u32, v);
    assert(node_tail(v) =~= Seq::<u8>::empty());
    assert(node_bytes(n, v) =~= (h + f) + b);
    lemma_stands_split(s, start, h + f, b);
    lemma_stands_split(s, start, h, f);
    if !(front is Empty) {
        lemma_node_bytes_nonempty(front, v);
    }
    if !(back is Empty) {
        lemma_node_bytes_nonempty(back, v);
    }
}

/// In the current layout a tree that the writer accepts reads back from
/// the bytes it wrote, wherever in a buffer they stand.
proof fn lemma_tree_roundtrip(
    n: SpecBspNode,
    s: Seq<u8>,
    start: int,
    verts: Seq<Vec3d>,
    v: Version,
    side: Side,
)
    requires
        v.current_tree(),
        !(n is Empty),
        node_encodable(n, v),
        stands_at(s, start, node_bytes(n, v)),
    ensures
        node_reads(s, start, verts, v, side, n),
    decreases n,
{
    match n {
        SpecBspNode::Leaf { bbox, poly } => {
            assert(node_tail(v) =~= Seq::<u8>::empty());
            assert(node_bytes(n, v) =~= leaf_bytes(bbox, poly, v));
            lemma_leaf_reads(s, start, bbox, poly, verts, v, side);
        },
        SpecBspNode::Split { bbox, front, back } => {
            lemma_split_pieces(s, start, n, v);
            let f = child_bytes(*front, v);
            let b = child_bytes(*back, v);
            let size = 40 + f.len() + b.len();
            let fo = if *front is Empty { 0int } else { 40int };
            let bo = if *back is Empty { 0int } else { 40 + f.len() as int };
            if !(*front is Empty) {
                lemma_tree_roundtrip(*front, s, start + 40, verts, v, side);
            }
            if !(*back is Empty) {
                lemma_tree_roundtrip(*back, s, start + 40 + f.len(), verts, v, side);
            }
            lemma_child_reads(*front, s, start, fo, verts, v, side);
            lemma_child_reads(*back, s, start, bo, verts, v, side);
            lemma_split_reads(
                s,
                start,
                bbox,
                *front,
                *back,
                size as u32,
                fo as u32,
                bo as u32,
                verts,
                v,
                side,
            );
        },
        SpecBspNode::Empty => {},
    }
}

/// In the current layout a tree that the writer accepts reads back from
/// the bytes it wrote, wherever in a buffer they stand.
pub proof fn lemma_node_roundtrip(
    n: SpecBspNode,
    s: Seq<u8>,
    start: int,
    verts: Seq<Vec3d>,
    v: Version,
    side: Side,
)
    requires
        v.current_tree(),
        !(n is Empty),
        node_encodable(n, v),
        stands_at(s, start, node_bytes(n, v)),
    ensures
        spec_bsp_node(s, start, verts, v, side) == Ok::<SpecBspNode, DecodeError>(n),
{
    reveal(node_reads);
    lemma_tree_roundtrip(n, s, start, verts, v, side);
}

/// The fields of a split header in the current layout, read where the
/// header stands.
proof fn lemma_split_fields(
    s: Seq<u8>,
    start: int,
    bbox: BoundingBox,
    size: u32,
    fo: u32,
    bo: u32,
    v: Version,
)
    requires
        v.current_tree(),
        stands_at(s, start, split_header(bbox, size, fo, bo, v)),
        start + size <= s.len(),
    ensures
        spec_chunk_header(s, start, false) == Ok::<(u32, int, int), DecodeError>(
            (SORTNORM2, start + 8, start + size),
        ),
        spec_split_offsets_at(s, start + 8, false) == Ok::<int, DecodeError>(start + 8),
        spec_u32(s, start + 8) == Ok::<(u32, int), DecodeError>((fo, start + 12)),
        spec_u32(s, start + 12) == Ok::<(u32, int), DecodeError>((bo, start + 16)),
        spec_split_box(s, start + 16, false, v) == Ok::<BoundingBox, DecodeError>(bbox),
{
    reveal(split_header);
    let a = u32_bytes(SORTNORM2);
    let b = u32_bytes(size);
    let c = u32_bytes(fo);
    let d = u32_bytes(bo);
    let e = bbox_bytes(bbox);
    assert(split_header(bbox, size, fo, bo, v) == (((a + b) + c) + d) + e);
    lemma_stands_split(s, start, ((a + b) + c) + d, e);
    lemma_stands_split(s, start, (a + b) + c, d);
    lemma_stands_split(s, start, a + b, c);
    lemma_stands_split(s, start, a, b);
    lemma_u32_stands(s, start, SORTNORM2);
    lemma_u32_stands(s, start + 4, size);
    lemma_u32_stands(s, start + 8, fo);
    lemma_u32_stands(s, start + 12, bo);
    lemma_bbox_stands(s, start + 16, bbox);
}

// ---------------------------------------------------------------------
// Offsets
// ---------------------------------------------------------------------

/// The two offsets a split is written with.
pub open spec fn written_offsets(n: SpecBspNode, v: Version) -> (int, int)
    recommends
        n is Split,
{
    let f = child_bytes(*n->Split_front, v);
    (front_offset(*n->Split_front, v), back_offset(f.len() as int, *n->Split_back, v))
}

/// The size a split chunk is written with.
pub open spec fn written_size(n: SpecBspNode, v: Version) -> int
    recommends
        n is Split,
{
    split_size(
        child_bytes(*n->Split_front, v).len() as int,
        child_bytes(*n->Split_back, v).len() as int,
        v,
    )
}

/// Every offset of a split that is not zero points past the split's own
/// tag and size field and strictly inside the split's chunk, at the first
/// byte of the child it names. An empty child has offset zero.
pub proof fn lemma_split_offsets_inside(n: SpecBspNode, v: Version)
    requires
        n is Split,
    ensures
        ({
            let (fo, bo) = written_offsets(n, v);
            let size = written_size(n, v);
            let front = *n->Split_front;
            let back = *n->Split_back;
            &&& (front is Empty <==> fo == 0)
            &&& (back is Empty <==> bo == 0)
            &&& fo != 0 ==> 8 < fo < size && node_bytes(n, v).subrange(
                fo,
                fo + node_bytes(front, v).len(),
            ) == node_bytes(front, v)
            &&& bo != 0 ==> 8 < bo < size && node_bytes(n, v).subrange(
                bo,
                bo + node_bytes(back, v).len(),
            ) == node_bytes(back, v)
            &&& size <= node_bytes(n, v).len()
        }),
{
    let front = *n->Split_front;
    let back = *n->Split_back;
    let bbox = n->Split_bbox;
    let f = child_bytes(front, v);
    let b = child_bytes(back, v);
    let (fo, bo) = written_offsets(n, v);
    let size = written_size(n, v);
    let h = split_header(bbox, size as u32, fo as u32, bo as u32, v);
    lemma_split_header_len(bbox, size as u32, fo as u32, bo as u32, v);
    let all = node_bytes(n, v);
    assert(all == h + f + b + node_tail(v));
    if !(front is Empty) {
        lemma_node_bytes_nonempty(front, v);
        assert(all.subrange(fo, fo + f.len()) =~= f);
    }
    if !(back is Empty) {
        lemma_node_bytes_nonempty(back, v);
        assert(all.subrange(bo, bo + b.len()) =~= b);
    }
}

/// A split with an empty front branch and a back branch that is not
/// empty is written with front offset zero, and with a back offset that
/// is the length of its header: the distance from the split's start to
/// the first byte of the back child.
pub proof fn lemma_empty_front_split(bbox: BoundingBox, back: SpecBspNode, v: Version)
    requires
        !(back is Empty),
    ensures
        ({
            let n = SpecBspNode::Split {
                bbox,
                front: Box::new(SpecBspNode::Empty),
                back: Box::new(back),
            };
            let size = split_header_len(v) + node_bytes(back, v).len();
            &&& written_offsets(n, v) == (0int, split_header_len(v))
            &&& node_bytes(n, v) == split_header(bbox, size as u32, 0, split_header_len(v) as u32, v)
                + node_bytes(back, v) + node_tail(v)
            &&& split_header(bbox, size as u32, 0, split_header_len(v) as u32, v).len()
                == split_header_len(v)
        }),
{
    let n = SpecBspNode::Split { bbox, front: Box::new(SpecBspNode::Empty), back: Box::new(back) };
    let size = split_header_len(v) + node_bytes(back, v).len();
    let h = split_header(bbox, size as u32, 0, split_header_len(v) as u32, v);
    lemma_split_header_len(bbox, size as u32, 0, split_header_len(v) as u32, v);
    assert(child_bytes(SpecBspNode::Empty, v) =~= Seq::<u8>::empty());
    assert(node_bytes(n, v) =~= h + node_bytes(back, v) + node_tail(v));
}

// ---------------------------------------------------------------------
// Normal counts
// ---------------------------------------------------------------------

/// The sum of the counts.
pub open spec fn count_sum(counts: Seq<u8>) -> int
    decreases counts.len(),
{
    if counts.len() == 0 {
        0
    } else {
        count_sum(counts.drop_last()) + counts.last() as int
    }
}

/// The counts the writer gives the first `k` vertices add up to the
/// number of normals given out so far.
pub proof fn lemma_written_counts_prefix(k: int, num_verts: int, num_norms: int)
    requires
        0 <= k <= num_verts,
        0 <= num_norms,
    ensures
        count_sum(norm_counts(num_verts, num_norms).take(k)) == norm_start(k, num_norms),
    decreases k,
{
    reveal(norm_counts);
    let c = norm_counts(num_verts, num_norms);
    if k > 0 {
        lemma_written_counts_prefix(k - 1, num_verts, num_norms);
        assert(c.take(k).drop_last() =~= c.take(k - 1));
        assert(c.take(k).last() == c[k - 1]);
    }
}

/// The counts the writer gives the vertices of a pool that it accepts
/// add up to the number of normals.
pub proof fn lemma_written_counts_sum(num_verts: int, num_norms: int)
    requires
        0 <= num_verts,
        0 <= num_norms <= 0xCC * num_verts,
    ensures
        count_sum(norm_counts(num_verts, num_norms)) == num_norms,
{
    reveal(norm_counts);
    let c = norm_counts(num_verts, num_norms);
    lemma_written_counts_prefix(num_verts, num_verts, num_norms);
    assert(c.take(num_verts) =~= c);
}

/// A list of `n` items that reads has `n` items.
proof fn lemma_vec_list_len(s: Seq<u8>, pos: int, n: nat, v: Version)
    ensures
        spec_list_n::<Vec3d>(s, pos, n, v) matches Ok((xs, _)) ==> xs.len() == n,
    decreases n,
{
    if n > 0 {
        lemma_vec_list_len(s, pos, (n - 1) as nat, v);
    }
}

/// Where the pools read, there is one vertex for each count, and the
/// number of normals is the sum of the counts.
pub proof fn lemma_pools_count(s: Seq<u8>, counts: Seq<u8>, pos: int, v: Version)
    ensures
        spec_pools(s, counts, pos, v) matches Ok(((vs, ns), _)) ==> vs.len() == counts.len()
            && ns.len() == count_sum(counts),
    decreases counts.len(),
{
    reveal(spec_pools);
    if counts.len() > 0 {
        lemma_pools_count(s, counts.drop_last(), pos, v);
        match spec_pools(s, counts.drop_last(), pos, v) {
            Ok(((vs, ns), p)) => {
                lemma_vec_list_len(s, p + 12, counts.last() as nat, v);
            },
            Err(_) => {},
        }
    }
}

/// The counts that a buffer declares: one byte for each vertex, behind
/// the three numbers that open the pools chunk.
pub open spec fn declared_counts(s: Seq<u8>) -> Seq<u8> {
    s.subrange(20, 20 + le_u32(s.subrange(8, 12)))
}

/// The number of normals that a buffer declares.
pub open spec fn declared_norms(s: Seq<u8>) -> int {
    le_u32(s.subrange(12, 16)) as int
}

/// In a buffer that decodes, the per-vertex normal counts add up to the
/// declared number of normals, and that many normals are decoded.
pub proof fn lemma_decoded_normal_counts(s: Seq<u8>, v: Version, side: Side)
    ensures
        spec_bsp_data(s, v, side) matches Ok(d) ==> count_sum(declared_counts(s)) == declared_norms(s)
            && d.norms.len() == declared_norms(s) && d.verts.len() == declared_counts(s).len(),
{
    reveal(spec_bsp_data);
    if spec_bsp_data(s, v, side) is Ok {
        let offset = le_u32(s.subrange(16, 20));
        lemma_pools_count(s, declared_counts(s), offset as int, v);
    }
}

// ---------------------------------------------------------------------
// The whole buffer
// ---------------------------------------------------------------------

/// A run of vectors reads back.
proof fn lemma_vecs_stand(s: Seq<u8>, pos: int, xs: Seq<Vec3d>, v: Version)
    requires
        stands_at(s, pos, vecs_bytes(xs)),
    ensures
        spec_list_n::<Vec3d>(s, pos, xs.len(), v) == Ok::<(Seq<Vec3d>, int), DecodeError>(
            (xs, pos + 12 * xs.len()),
        ),
    decreases xs.len(),
{
    if xs.len() == 0 {
        assert(xs =~= Seq::<Vec3d>::empty());
    } else {
        let init = xs.drop_last();
        lemma_vecs_len(init);
        lemma_stands_split(s, pos, vecs_bytes(init), vec3d_bytes(xs.last()));
        lemma_vecs_stand(s, pos, init, v);
        lemma_vec3d_stands(s, pos + 12 * init.len(), xs.last());
        assert(init.push(xs.last()) =~= xs);
    }
}

/// One more vertex with its normals, behind pools that read.
proof fn lemma_pools_step(
    s: Seq<u8>,
    counts: Seq<u8>,
    count: u8,
    pos: int,
    vs: Seq<Vec3d>,
    ns: Seq<Vec3d>,
    p: int,
    x: Vec3d,
    run: Seq<Vec3d>,
    q: int,
    v: Version,
)
    requires
        spec_pools(s, counts, pos, v) == Ok::<((Seq<Vec3d>, Seq<Vec3d>), int), DecodeError>(
            ((vs, ns), p),
        ),
        spec_vec3d(s, p) == Ok::<(Vec3d, int), DecodeError>((x, p + 12)),
        spec_list_n::<Vec3d>(s, p + 12, count as nat, v) == Ok::<(Seq<Vec3d>, int), DecodeError>(
            (run, q),
        ),
    ensures
        spec_pools(s, counts.push(count), pos, v) == Ok::<
            ((Seq<Vec3d>, Seq<Vec3d>), int),
            DecodeError,
        >(((vs.push(x), ns + run), q)),
{
    reveal(spec_pools);
    assert(counts.push(count).drop_last() =~= counts);
}

/// Where the first `k` vertices stand with their normals, the first
/// `k - 1` stand, and behind them vertex `k - 1` and its normals.
proof fn lemma_pool_piece_stands(s: Seq<u8>, pos: int, verts: Seq<Vec3d>, norms: Seq<Vec3d>, k: int)
    requires
        0 < k <= verts.len(),
        stands_at(s, pos, pool_bytes(verts, norms, k)),
    ensures
        ({
            let n = norms.len() as int;
            let a = norm_start(k - 1, n);
            let p = pos + 12 * (k - 1 + a);
            &&& 0 <= a <= norm_start(k, n) <= n
            &&& stands_at(s, pos, pool_bytes(verts, norms, k - 1))
            &&& stands_at(s, p, vec3d_bytes(verts[k - 1]))
            &&& stands_at(s, p + 12, vecs_bytes(norms.subrange(a, norm_start(k, n))))
        }),
{
    reveal(pool_bytes);
    let n = norms.len() as int;
    let a = norm_start(k - 1, n);
    let run = norms.subrange(a, norm_start(k, n));
    let before = pool_bytes(verts, norms, k - 1);
    lemma_pool_len(verts, norms, k - 1);
    assert(pool_bytes(verts, norms, k) == (before + vec3d_bytes(verts[k - 1])) + vecs_bytes(run));
    lemma_stands_split(s, pos, before + vec3d_bytes(verts[k - 1]), vecs_bytes(run));
    lemma_stands_split(s, pos, before, vec3d_bytes(verts[k - 1]));
}

/// The count the writer gives a vertex is the number of normals between
/// where its normals begin and where those of the next vertex begin.
proof fn lemma_count_is_run(num_verts: int, num_norms: int, k: int)
    requires
        0 < k <= num_verts,
        0 <= num_norms,
    ensures
        norm_counts(num_verts, num_norms)[k - 1] as int == norm_start(k, num_norms) - norm_start(
            k - 1,
            num_norms,
        ),
        norm_counts(num_verts, num_norms).take(k - 1).push(norm_counts(num_verts, num_norms)[k - 1])
            == norm_counts(num_verts, num_norms).take(k),
{
    reveal(norm_counts);
    let c = norm_counts(num_verts, num_norms);
    assert(c.take(k - 1).push(c[k - 1]) =~= c.take(k));
}

/// The first `k` vertices with their normals read back, under the counts
/// the writer gives them.
proof fn lemma_pool_stands(
    s: Seq<u8>,
    pos: int,
    verts: Seq<Vec3d>,
    norms: Seq<Vec3d>,
    k: int,
    v: Version,
)
    requires
        0 <= k <= verts.len(),
        stands_at(s, pos, pool_bytes(verts, norms, k)),
    ensures
        spec_pools(s, norm_counts(verts.len() as int, norms.len() as int).take(k), pos, v) == Ok::<
            ((Seq<Vec3d>, Seq<Vec3d>), int),
            DecodeError,
        >(
            (
                (verts.take(k), norms.take(norm_start(k, norms.len() as int))),
                pos + 12 * (k + norm_start(k, norms.len() as int)),
            ),
        ),
    decreases k,
{
    let n = norms.len() as int;
    let counts = norm_counts(verts.len() as int, n);
    if k == 0 {
        reveal(spec_pools);
        assert(counts.take(0) =~= Seq::<u8>::empty());
        assert(verts.take(0) =~= Seq::<Vec3d>::empty());
        assert(norms.take(0) =~= Seq::<Vec3d>::empty());
    } else {
        let a = norm_start(k - 1, n);
        let b = norm_start(k, n);
        let run = norms.subrange(a, b);
        let p = pos + 12 * (k - 1 + a);
        lemma_pool_piece_stands(s, pos, verts, norms, k);
        lemma_pool_stands(s, pos, verts, norms, k - 1, v);
        lemma_vec3d_stands(s, p, verts[k - 1]);
        lemma_vecs_stand(s, p + 12, run, v);
        lemma_count_is_run(verts.len() as int, n, k);
        lemma_pools_step(
            s,
            counts.take(k - 1),
            counts[k - 1],
            pos,
            verts.take(k - 1),
            norms.take(a),
            p,
            verts[k - 1],
            run,
            p + 12 + 12 * run.len(),
            v,
        );
        assert(verts.take(k - 1).push(verts[k - 1]) == verts.take(k)) by {
            assert(verts.take(k - 1).push(verts[k - 1]) =~= verts.take(k));
        }
        assert(norms.take(a) + run == norms.take(b)) by {
            assert(norms.take(a) + run =~= norms.take(b));
        }
    }
}

/// The numbers that open the pools chunk, read where the chunk stands at
/// the start of a buffer.
proof fn lemma_pools_head_stands(
    s: Seq<u8>,
    size: u32,
    nv: u32,
    nn: u32,
    offset: u32,
    counts: Seq<u8>,
    pad: Seq<u8>,
    pool: Seq<u8>,
)
    requires
        counts.len() == nv,
        offset == 20 + nv + pad.len(),
        size == offset + pool.len(),
        stands_at(
            s,
            0,
            u32_bytes(DEFFPOINTS) + u32_bytes(size) + u32_bytes(nv) + u32_bytes(nn) + u32_bytes(
                offset,
            ) + counts + pad + pool,
        ),
    ensures
        spec_chunk_header(s, 0, false) == Ok::<(u32, int, int), DecodeError>(
            (DEFFPOINTS, 8int, size as int),
        ),
        has_bytes(s, 8, 12),
        le_u32(s.subrange(8, 12)) == nv,
        le_u32(s.subrange(12, 16)) == nn,
        le_u32(s.subrange(16, 20)) == offset,
        has_bytes(s, 20, nv as int),
        s.subrange(20, 20 + nv) == counts,
        stands_at(s, offset as int, pool),
        size <= s.len(),
{
    let a = u32_bytes(DEFFPOINTS);
    let b = u32_bytes(size);
    let c = u32_bytes(nv);
    let d = u32_bytes(nn);
    let e = u32_bytes(offset);
    lemma_stands_split(s, 0, a + b + c + d + e + counts + pad, pool);
    lemma_stands_split(s, 0, a + b + c + d + e + counts, pad);
    lemma_stands_split(s, 0, a + b + c + d + e, counts);
    lemma_stands_split(s, 0, a + b + c + d, e);
    lemma_stands_split(s, 0, a + b + c, d);
    lemma_stands_split(s, 0, a + b, c);
    lemma_stands_split(s, 0, a, b);
    lemma_u32_stands(s, 0, DEFFPOINTS);
    lemma_u32_stands(s, 4, size);
    lemma_u32_stands(s, 8, nv);
    lemma_u32_stands(s, 12, nn);
    lemma_u32_stands(s, 16, offset);
}

/// The size of the pools chunk of a pool that the writer accepts, written
/// at the start of a buffer.
pub open spec fn pools_size(verts: Seq<Vec3d>, norms: Seq<Vec3d>) -> int {
    pools_offset(verts.len() as int, 0) + 12 * (verts.len() + norms.len())
}

/// The pools chunk at the start of `s` reads as these pools.
#[verifier::opaque]
pub open spec fn pools_read(s: Seq<u8>, verts: Seq<Vec3d>, norms: Seq<Vec3d>, v: Version) -> bool {
    let nv = verts.len() as int;
    let offset = pools_offset(nv, 0);
    let size = pools_size(verts, norms);
    &&& nv <= u32::MAX
    &&& norms.len() <= u32::MAX
    &&& 0 <= offset <= size <= u32::MAX
    &&& spec_chunk_header(s, 0, false) == Ok::<(u32, int, int), DecodeError>((DEFFPOINTS, 8int, size))
    &&& has_bytes(s, 8, 12)
    &&& le_u32(s.subrange(8, 12)) == nv
    &&& le_u32(s.subrange(12, 16)) == norms.len()
    &&& le_u32(s.subrange(16, 20)) == offset
    &&& has_bytes(s, 20, nv)
    &&& offset <= s.len()
    &&& spec_pools(s, s.subrange(20, 20 + nv), offset, v) == Ok::<
        ((Seq<Vec3d>, Seq<Vec3d>), int),
        DecodeError,
    >(((verts, norms), size))
}

/// The buffer reads as a whole once its parts do.
proof fn lemma_bsp_data_reads(s: Seq<u8>, d: SpecBspData, v: Version, side: Side)
    requires
        v.stores_split_boxes(),
        pools_read(s, d.verts, d.norms, v),
        node_reads(s, pools_size(d.verts, d.norms), d.verts, v, side, d.collision_tree),
    ensures
        spec_bsp_data(s, v, side) == Ok::<SpecBspData, DecodeError>(d),
{
    reveal(spec_bsp_data);
    reveal(pools_read);
    reveal(node_reads);
}

/// The pools chunk that the writer emits at the start of a buffer reads
/// back.
proof fn lemma_pools_roundtrip(s: Seq<u8>, verts: Seq<Vec3d>, norms: Seq<Vec3d>, v: Version)
    requires
        pools_encodable(verts, norms, 0),
        stands_at(s, 0, pools_bytes(verts, norms, 0)),
    ensures
        pools_bytes(verts, norms, 0).len() == pools_size(verts, norms),
        pools_read(s, verts, norms, v),
{
    reveal(pools_bytes);
    reveal(pools_read);
    let nv = verts.len() as int;
    let nn = norms.len() as int;
    let pool = pool_bytes(verts, norms, nv);
    let counts = norm_counts(nv, nn);
    let pad = zeros(align_pad(20 + nv));
    let offset = pools_offset(nv, 0);
    let size = offset + 12 * (nv + nn);
    lemma_pool_len(verts, norms, nv);
    lemma_norm_counts_len(nv, nn);
    lemma_pools_head_stands(s, size as u32, nv as u32, nn as u32, offset as u32, counts, pad, pool);
    lemma_pool_stands(s, offset, verts, norms, nv, v);
    assert(counts.take(nv) =~= counts);
    assert(verts.take(nv) =~= verts);
    assert(norms.take(nn) =~= norms);
}

/// In the current layout the buffer of a subobject that the writer
/// accepts, written at the start of a buffer, reads back as it was.
/// A tree that is empty at the root is left out: the writer emits nothing
/// for it, and the reader finds no node to read.
pub proof fn lemma_bsp_data_roundtrip(d: SpecBspData, v: Version, side: Side)
    requires
        v.current_tree(),
        bsp_data_encodable(d, v, 0),
        !(d.collision_tree is Empty),
    ensures
        spec_bsp_data(bsp_data_bytes(d, v, 0), v, side) == Ok::<SpecBspData, DecodeError>(d),
{
    let s = bsp_data_bytes(d, v, 0);
    let tree = node_bytes(d.collision_tree, v);
    let pools = pools_bytes(d.verts, d.norms, 0);
    lemma_whole_stands(pools, tree);
    lemma_pools_roundtrip(s, d.verts, d.norms, v);
    lemma_tree_roundtrip(d.collision_tree, s, pools_size(d.verts, d.norms), d.verts, v, side);
    lemma_bsp_data_reads(s, d, v, side);
}

/// Two pieces that make up a buffer stand in it one behind the other.
proof fn lemma_whole_stands(x: Seq<u8>, y: Seq<u8>)
    ensures
        stands_at(x + y, 0, x),
        stands_at(x + y, x.len() as int, y),
{
    let s = x + y;
    assert(s.subrange(0, s.len() as int) =~= s);
    lemma_stands_split(s, 0, x, y);
}

} // verus!
