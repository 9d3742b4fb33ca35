//! Encoding the tree of a subobject into a buffer.
//!
//! Every chunk is written in two passes: a placeholder is reserved for its
//! size, the content follows, and the placeholder is overwritten once the
//! content's end is known. The child offsets of a split are written the
//! same way. An empty child is not written and its offset stays zero.

use vstd::prelude::*;
use crate::bsp::{
    node_view, BspData, BspNode, PolyVertex, Polygon, SpecBspData, SpecBspNode, SpecPolygon,
};
use crate::bsp_read::{
    VertexLayout, BOUNDBOX, DEFFPOINTS, ENDOFBRANCH, SORTNORM, SORTNORM2, TMAPPOLY, TMAPPOLY2,
};
use crate::bytes::{
    align_buf, align_pad, patched, u16_bytes, u32_bytes, write_u16, write_u32, write_zeros, zeros,
    Fixup,
};
use crate::error::EncodeError;
use crate::geom::{bbox_bytes, vec3d_bytes, write_bbox, write_vec3d, BoundingBox, Vec3d};
use crate::version::Version;

verus! {

/// The most normals the pools chunk gives to one vertex.
pub const MAX_NORMS_PER_VERT: u8 = 0xCC;

/// The chunk that ends a branch: tag zero, size zero.
pub open spec fn end_of_branch_bytes() -> Seq<u8> {
    u32_bytes(ENDOFBRANCH) + u32_bytes(0)
}

/// Whether the indices of a corner fit the layout.
pub open spec fn poly_vertex_encodable(x: PolyVertex, layout: VertexLayout) -> bool {
    layout is Wide || (x.vertex_id.0 <= 0xffff && x.normal_id.0 <= 0xffff)
}

/// One corner in a layout.
pub open spec fn poly_vertex_bytes(x: PolyVertex, layout: VertexLayout) -> Seq<u8> {
    match layout {
        VertexLayout::Wide => u32_bytes(x.vertex_id.0) + u32_bytes(x.normal_id.0) + u32_bytes(x.u)
            + u32_bytes(x.v),
        VertexLayout::Narrow => u16_bytes(x.vertex_id.0 as u16) + u16_bytes(x.normal_id.0 as u16)
            + u32_bytes(x.u) + u32_bytes(x.v),
        VertexLayout::Flat => u16_bytes(x.vertex_id.0 as u16) + u16_bytes(x.normal_id.0 as u16),
    }
}

pub open spec fn poly_verts_encodable(xs: Seq<PolyVertex>, layout: VertexLayout) -> bool {
    forall|i: int| 0 <= i < xs.len() ==> poly_vertex_encodable(#[trigger] xs[i], layout)
}

/// The corners of a polygon, one after the other.
pub open spec fn poly_verts_bytes(xs: Seq<PolyVertex>, layout: VertexLayout) -> Seq<u8>
    decreases xs.len(),
{
    if xs.len() == 0 {
        Seq::empty()
    } else {
        poly_verts_bytes(xs.drop_last(), layout) + poly_vertex_bytes(xs.last(), layout)
    }
}

/// The corners take as many bytes each as their layout says.
pub proof fn lemma_poly_verts_len(xs: Seq<PolyVertex>, layout: VertexLayout)
    ensures
        poly_verts_bytes(xs, layout).len() == xs.len() * layout.width(),
    decreases xs.len(),
{
    if xs.len() > 0 {
        lemma_poly_verts_len(xs.drop_last(), layout);
        assert(xs.len() * layout.width() == xs.drop_last().len() * layout.width() + layout.width())
            by (nonlinear_arith)
            requires
                xs.drop_last().len() == xs.len() - 1,
        ;
    }
}

/// The content of a leaf chunk behind its size field.
pub open spec fn leaf_content(bbox: BoundingBox, poly: SpecPolygon) -> Seq<u8> {
    bbox_bytes(bbox) + vec3d_bytes(poly.normal) + u32_bytes(poly.texture.0) + u32_bytes(
        poly.verts.len() as u32,
    ) + poly_verts_bytes(poly.verts, VertexLayout::Wide)
}

/// The content of a legacy polygon chunk behind its size field: the
/// normal, an unused centre and radius, the number of corners, the
/// texture, the corners.
pub open spec fn legacy_poly_content(poly: SpecPolygon) -> Seq<u8> {
    vec3d_bytes(poly.normal) + zeros(16) + u32_bytes(poly.verts.len() as u32) + u32_bytes(
        poly.texture.0,
    ) + poly_verts_bytes(poly.verts, VertexLayout::Narrow)
}

/// A chunk: its tag, its size from its own start, its content.
pub open spec fn chunk_bytes(tag: u32, content: Seq<u8>) -> Seq<u8> {
    u32_bytes(tag) + u32_bytes((8 + content.len()) as u32) + content
}

/// A leaf: one chunk in the current layout; in the legacy one a box
/// chunk followed by one polygon chunk.
pub open spec fn leaf_bytes(bbox: BoundingBox, poly: SpecPolygon, v: Version) -> Seq<u8> {
    if v.current_tree() {
        chunk_bytes(TMAPPOLY2, leaf_content(bbox, poly))
    } else {
        chunk_bytes(BOUNDBOX, bbox_bytes(bbox)) + chunk_bytes(TMAPPOLY, legacy_poly_content(poly))
    }
}

/// Whether a leaf fits its chunks: the sizes fit their fields, and in
/// the legacy layout the indices fit two bytes.
pub open spec fn leaf_encodable(poly: SpecPolygon, v: Version) -> bool {
    if v.current_tree() {
        52 + 16 * poly.verts.len() <= u32::MAX
    } else {
        &&& poly_verts_encodable(poly.verts, VertexLayout::Narrow)
        &&& 44 + 12 * poly.verts.len() <= u32::MAX
    }
}

/// What a leaf's chunks hold behind their size fields, counted in bytes.
pub proof fn lemma_leaf_content_len(bbox: BoundingBox, poly: SpecPolygon)
    ensures
        leaf_content(bbox, poly).len() == 44 + 16 * poly.verts.len(),
        legacy_poly_content(poly).len() == 36 + 12 * poly.verts.len(),
        bbox_bytes(bbox).len() == 24,
{
    lemma_poly_verts_len(poly.verts, VertexLayout::Wide);
    lemma_poly_verts_len(poly.verts, VertexLayout::Narrow);
}

/// The bytes a split holds before its children: tag, size, offsets, box,
/// and in the legacy layout the unused fields.
pub open spec fn split_header_len(v: Version) -> int {
    if v.current_tree() {
        40
    } else if v.stores_split_boxes() {
        80
    } else {
        56
    }
}

/// A child as its parent writes it: an empty one is left out.
pub open spec fn child_bytes(n: SpecBspNode, v: Version) -> Seq<u8>
    decreases n, 1nat,
{
    if n is Empty {
        Seq::empty()
    } else {
        node_bytes(n, v)
    }
}

/// The offset of the front child: zero for an empty one, else the length
/// of the split's header, where the child begins.
pub open spec fn front_offset(front: SpecBspNode, v: Version) -> int {
    if front is Empty {
        0
    } else {
        split_header_len(v)
    }
}

/// The offset of the back child, behind a front child of `front_len`
/// bytes: zero for an empty one, else the distance from the split's start
/// to the end of the front child, where the back child begins.
pub open spec fn back_offset(front_len: int, back: SpecBspNode, v: Version) -> int {
    if back is Empty {
        0
    } else {
        split_header_len(v) + front_len
    }
}

/// The size of a split chunk: its header and both children.
pub open spec fn split_size(front_len: int, back_len: int, v: Version) -> int {
    split_header_len(v) + front_len + back_len
}

/// The header of a split, with the given size and offsets.
#[verifier::opaque]
pub open spec fn split_header(bbox: BoundingBox, size: u32, front: u32, back: u32, v: Version) -> Seq<
    u8,
> {
    if v.current_tree() {
        u32_bytes(SORTNORM2) + u32_bytes(size) + u32_bytes(front) + u32_bytes(back) + bbox_bytes(
            bbox,
        )
    } else {
        u32_bytes(SORTNORM) + u32_bytes(size) + zeros(28) + u32_bytes(front) + u32_bytes(back)
            + zeros(12) + (if v.stores_split_boxes() {
            bbox_bytes(bbox)
        } else {
            Seq::empty()
        })
    }
}

/// A split chunk over children that take the bytes `f` and `b`.
pub open spec fn split_bytes(
    bbox: BoundingBox,
    front: SpecBspNode,
    back: SpecBspNode,
    f: Seq<u8>,
    b: Seq<u8>,
    v: Version,
) -> Seq<u8> {
    split_header(
        bbox,
        split_size(f.len() as int, b.len() as int, v) as u32,
        front_offset(front, v) as u32,
        back_offset(f.len() as int, back, v) as u32,
        v,
    ) + f + b
}

/// A node. A legacy revision ends every node it writes with a branch
/// terminator.
pub open spec fn node_bytes(n: SpecBspNode, v: Version) -> Seq<u8>
    decreases n, 0nat,
{
    let tail = node_tail(v);
    match n {
        SpecBspNode::Split { bbox, front, back } => split_bytes(
            bbox,
            *front,
            *back,
            child_bytes(*front, v),
            child_bytes(*back, v),
            v,
        ) + tail,
        SpecBspNode::Leaf { bbox, poly } => leaf_bytes(bbox, poly, v) + tail,
        SpecBspNode::Empty => tail,
    }
}

/// Whether every size, offset and index of the tree fits its field.
pub open spec fn node_encodable(n: SpecBspNode, v: Version) -> bool
    decreases n,
{
    match n {
        SpecBspNode::Split { bbox, front, back } => {
            &&& node_encodable(*front, v)
            &&& node_encodable(*back, v)
            &&& split_size(
                child_bytes(*front, v).len() as int,
                child_bytes(*back, v).len() as int,
                v,
            ) <= u32::MAX
        },
        SpecBspNode::Leaf { bbox, poly } => leaf_encodable(poly, v),
        SpecBspNode::Empty => true,
    }
}

// ---------------------------------------------------------------------
// The pools chunk
// ---------------------------------------------------------------------

/// Where the normals of vertex `i` begin in the pool of `n` normals: each
/// vertex before it took as many as were left, up to the most one vertex
/// may have.
pub open spec fn norm_start(i: int, n: int) -> int {
    if 0xCC * i <= n {
        0xCC * i
    } else {
        n
    }
}

/// How many normals vertex `i` is given.
pub open spec fn norm_count(i: int, n: int) -> int {
    norm_start(i + 1, n) - norm_start(i, n)
}

/// The counts of all vertices.
#[verifier::opaque]
pub open spec fn norm_counts(num_verts: int, num_norms: int) -> Seq<u8> {
    Seq::new(num_verts as nat, |i: int| norm_count(i, num_norms) as u8)
}

/// Vectors, one after the other.
pub open spec fn vecs_bytes(xs: Seq<Vec3d>) -> Seq<u8>
    decreases xs.len(),
{
    if xs.len() == 0 {
        Seq::empty()
    } else {
        vecs_bytes(xs.drop_last()) + vec3d_bytes(xs.last())
    }
}

/// The first `k` vertices, each followed by its normals.
#[verifier::opaque]
pub open spec fn pool_bytes(verts: Seq<Vec3d>, norms: Seq<Vec3d>, k: int) -> Seq<u8>
    decreases k,
{
    if k <= 0 {
        Seq::empty()
    } else {
        pool_bytes(verts, norms, k - 1) + vec3d_bytes(verts[k - 1]) + vecs_bytes(
            norms.subrange(norm_start(k - 1, norms.len() as int), norm_start(k, norms.len() as int)),
        )
    }
}

/// The distance from the start of the pools chunk to the first vertex:
/// the chunk's head, the counts, and the padding that aligns the buffer,
/// which held `base` bytes before the chunk.
pub open spec fn pools_offset(num_verts: int, base: int) -> int {
    20 + num_verts + align_pad(base + 20 + num_verts)
}

/// The pools chunk.
#[verifier::opaque]
pub open spec fn pools_bytes(verts: Seq<Vec3d>, norms: Seq<Vec3d>, base: int) -> Seq<u8> {
    let nv = verts.len() as int;
    let pool = pool_bytes(verts, norms, nv);
    u32_bytes(DEFFPOINTS) + u32_bytes((pools_offset(nv, base) + pool.len()) as u32) + u32_bytes(
        nv as u32,
    ) + u32_bytes(norms.len() as u32) + u32_bytes(pools_offset(nv, base) as u32) + norm_counts(
        nv,
        norms.len() as int,
    ) + zeros(align_pad(base + 20 + nv)) + pool
}

/// Whether the pools fit their chunk: no vertex is given more normals
/// than one vertex may have, and the chunk's size fits its field.
pub open spec fn pools_encodable(verts: Seq<Vec3d>, norms: Seq<Vec3d>, base: int) -> bool {
    &&& norms.len() <= 0xCC * verts.len()
    &&& pools_offset(verts.len() as int, base) + 12 * (verts.len() + norms.len()) <= u32::MAX
}

/// One count for each vertex.
pub proof fn lemma_norm_counts_len(num_verts: int, num_norms: int)
    requires
        0 <= num_verts,
    ensures
        norm_counts(num_verts, num_norms).len() == num_verts,
{
    reveal(norm_counts);
}

pub proof fn lemma_vecs_len(xs: Seq<Vec3d>)
    ensures
        vecs_bytes(xs).len() == 12 * xs.len(),
    decreases xs.len(),
{
    if xs.len() > 0 {
        lemma_vecs_len(xs.drop_last());
    }
}

/// The first `k` vertices and their normals take twelve bytes each.
pub proof fn lemma_pool_len(verts: Seq<Vec3d>, norms: Seq<Vec3d>, k: int)
    requires
        0 <= k,
    ensures
        pool_bytes(verts, norms, k).len() == 12 * (k + norm_start(k, norms.len() as int)),
    decreases k,
{
    reveal(pool_bytes);
    if k > 0 {
        lemma_pool_len(verts, norms, k - 1);
        let n = norms.len() as int;
        lemma_vecs_len(norms.subrange(norm_start(k - 1, n), norm_start(k, n)));
    }
}

/// The buffer of a subobject, appended to a buffer that held `base` bytes.
pub open spec fn bsp_data_bytes(d: SpecBspData, v: Version, base: int) -> Seq<u8> {
    pools_bytes(d.verts, d.norms, base) + node_bytes(d.collision_tree, v)
}

/// Whether the buffer of a subobject can be written.
pub open spec fn bsp_data_encodable(d: SpecBspData, v: Version, base: int) -> bool {
    pools_encodable(d.verts, d.norms, base) && node_encodable(d.collision_tree, v)
}

// ---------------------------------------------------------------------
// Executable
// ---------------------------------------------------------------------

/// A placeholder that is overwritten reads as if the number had been
/// written in its place.
pub proof fn lemma_patch(before: Seq<u8>, after: Seq<u8>, n: u32)
    ensures
        patched(before + u32_bytes(0) + after, before.len() as int, n) == before + u32_bytes(n)
            + after,
{
    reveal(patched);
    let s = before + u32_bytes(0) + after;
    assert(s.subrange(0, before.len() as int) =~= before);
    assert(s.subrange(before.len() as int + 4, s.len() as int) =~= after);
}

fn write_poly_vertex(w: &mut Vec<u8>, x: &PolyVertex, layout: VertexLayout) -> (r: Result<
    (),
    EncodeError,
>)
    requires
        !(layout is Flat),
    ensures
        r is Ok <==> poly_vertex_encodable(*x, layout),
        r is Ok ==> final(w)@ == old(w)@ + poly_vertex_bytes(*x, layout),
        r is Err ==> final(w)@ == old(w)@,
{
    match layout {
        VertexLayout::Wide => {
            write_u32(w, x.vertex_id.0);
            write_u32(w, x.normal_id.0);
        },
        _ => {
            if x.vertex_id.0 > 0xffff || x.normal_id.0 > 0xffff {
                return Err(EncodeError::Unrepresentable);
            }
            write_u16(w, x.vertex_id.0 as u16);
            write_u16(w, x.normal_id.0 as u16);
        },
    }
    write_u32(w, x.u);
    write_u32(w, x.v);
    assert(w@ =~= old(w)@ + poly_vertex_bytes(*x, layout));
    Ok(())
}

fn write_poly_verts(w: &mut Vec<u8>, xs: &Vec<PolyVertex>, layout: VertexLayout) -> (r: Result<
    (),
    EncodeError,
>)
    requires
        !(layout is Flat),
    ensures
        r is Ok <==> poly_verts_encodable(xs@, layout),
        r is Ok ==> final(w)@ == old(w)@ + poly_verts_bytes(xs@, layout),
{
    let mut i: usize = 0;
    assert(xs@.take(0) =~= Seq::<PolyVertex>::empty());
    while i < xs.len()
        invariant
            !(layout is Flat),
            i <= xs@.len(),
            poly_verts_encodable(xs@.take(i as int), layout),
            w@ == old(w)@ + poly_verts_bytes(xs@.take(i as int), layout),
        decreases xs@.len() - i,
    {
        match write_poly_vertex(w, &xs[i], layout) {
            Err(e) => {
                return Err(e);
            },
            Ok(()) => {},
        }
        proof {
            let a = xs@.take(i as int);
            let b = xs@.take(i + 1);
            assert(b.drop_last() =~= a);
            assert(b.last() == xs@[i as int]);
            assert(w@ =~= old(w)@ + poly_verts_bytes(b, layout));
        }
        i += 1;
    }
    assert(xs@.take(i as int) =~= xs@);
    Ok(())
}

fn write_end_of_branch(w: &mut Vec<u8>)
    ensures
        final(w)@ == old(w)@ + end_of_branch_bytes(),
{
    write_u32(w, ENDOFBRANCH);
    write_u32(w, 0);
    assert(w@ =~= old(w)@ + end_of_branch_bytes());
}

fn write_current_leaf(buf: &mut Vec<u8>, bbox: BoundingBox, poly: &Polygon) -> (r: Result<
    (),
    EncodeError,
>)
    ensures
        r is Ok <==> 52 + 16 * poly.deep_view().verts.len() <= u32::MAX,
        r is Ok ==> final(buf)@ == old(buf)@ + chunk_bytes(
            TMAPPOLY2,
            leaf_content(bbox, poly.deep_view()),
        ),
{
    let ghost pv = poly.deep_view();
    proof {
        lemma_leaf_content_len(bbox, pv);
    }
    if poly.verts.len() > 0xffff_ffff {
        return Err(EncodeError::Unrepresentable);
    }
    let base = buf.len();
    write_u32(buf, TMAPPOLY2);
    let size = Fixup::new(buf, base);
    write_bbox(buf, bbox);
    write_vec3d(buf, poly.normal);
    write_u32(buf, poly.texture.0);
    write_u32(buf, poly.verts.len() as u32);
    match write_poly_verts(buf, &poly.verts, VertexLayout::Wide) {
        Err(e) => {
            assert(false);
            return Err(e);
        },
        Ok(()) => {},
    }
    let ghost content = leaf_content(bbox, pv);
    assert(buf@ =~= (old(buf)@ + u32_bytes(TMAPPOLY2)) + u32_bytes(0) + content);
    proof {
        lemma_patch(old(buf)@ + u32_bytes(TMAPPOLY2), content, (8 + content.len()) as u32);
    }
    match size.finish(buf) {
        Err(e) => Err(e),
        Ok(_) => {
            assert(buf@ =~= old(buf)@ + chunk_bytes(TMAPPOLY2, content));
            Ok(())
        },
    }
}

fn write_legacy_leaf(buf: &mut Vec<u8>, bbox: BoundingBox, poly: &Polygon) -> (r: Result<
    (),
    EncodeError,
>)
    ensures
        r is Ok <==> poly_verts_encodable(poly.deep_view().verts, VertexLayout::Narrow) && 44 + 12
            * poly.deep_view().verts.len() <= u32::MAX,
        r is Ok ==> final(buf)@ == old(buf)@ + chunk_bytes(BOUNDBOX, bbox_bytes(bbox))
            + chunk_bytes(TMAPPOLY, legacy_poly_content(poly.deep_view())),
{
    let ghost pv = poly.deep_view();
    proof {
        lemma_leaf_content_len(bbox, pv);
    }
    if poly.verts.len() > 0xffff_ffff {
        return Err(EncodeError::Unrepresentable);
    }
    let base = buf.len();
    write_u32(buf, BOUNDBOX);
    let size = Fixup::new(buf, base);
    write_bbox(buf, bbox);
    assert(buf@ =~= (old(buf)@ + u32_bytes(BOUNDBOX)) + u32_bytes(0) + bbox_bytes(bbox));
    proof {
        lemma_patch(old(buf)@ + u32_bytes(BOUNDBOX), bbox_bytes(bbox), 32);
    }
    match size.finish(buf) {
        Err(e) => {
            assert(false);
            return Err(e);
        },
        Ok(_) => {},
    }
    let ghost mid = buf@;
    assert(mid =~= old(buf)@ + chunk_bytes(BOUNDBOX, bbox_bytes(bbox)));
    let base = buf.len();
    write_u32(buf, TMAPPOLY);
    let size = Fixup::new(buf, base);
    write_vec3d(buf, poly.normal);
    write_zeros(buf, 16);
    write_u32(buf, poly.verts.len() as u32);
    write_u32(buf, poly.texture.0);
    match write_poly_verts(buf, &poly.verts, VertexLayout::Narrow) {
        Err(e) => {
            return Err(e);
        },
        Ok(()) => {},
    }
    let ghost content = legacy_poly_content(pv);
    assert(buf@ =~= (mid + u32_bytes(TMAPPOLY)) + u32_bytes(0) + content);
    proof {
        lemma_patch(mid + u32_bytes(TMAPPOLY), content, (8 + content.len()) as u32);
    }
    match size.finish(buf) {
        Err(e) => Err(e),
        Ok(_) => {
            assert(buf@ =~= mid + chunk_bytes(TMAPPOLY, content));
            Ok(())
        },
    }
}

/// Writes the head of a split with three placeholders: the size, the
/// front offset and the back offset.
fn write_split_header(buf: &mut Vec<u8>, bbox: BoundingBox, version: Version) -> (r: (
    Fixup,
    Fixup,
    Fixup,
))
    ensures
        final(buf)@ == old(buf)@ + split_header(bbox, 0, 0, 0, version),
        final(buf)@.len() == old(buf)@.len() + split_header_len(version),
        r.0.base() == old(buf)@.len() && r.1.base() == old(buf)@.len() && r.2.base() == old(
            buf,
        )@.len(),
        r.0.location() == old(buf)@.len() + 4,
        r.1.location() == old(buf)@.len() + (if version.current_tree() {
            8int
        } else {
            36int
        }),
        r.2.location() == r.1.location() + 4,
{
    reveal(split_header);
    let base = buf.len();
    if version.current_tree() {
        write_u32(buf, SORTNORM2);
        let size = Fixup::new(buf, base);
        let front = Fixup::new(buf, base);
        let back = Fixup::new(buf, base);
        write_bbox(buf, bbox);
        assert(buf@ =~= old(buf)@ + split_header(bbox, 0, 0, 0, version));
        (size, front, back)
    } else {
        write_u32(buf, SORTNORM);
        let size = Fixup::new(buf, base);
        write_zeros(buf, 28);
        let front = Fixup::new(buf, base);
        let back = Fixup::new(buf, base);
        write_zeros(buf, 12);
        if version.stores_split_boxes() {
            write_bbox(buf, bbox);
        }
        assert(buf@ =~= old(buf)@ + split_header(bbox, 0, 0, 0, version));
        (size, front, back)
    }
}

/// The header with one of its three fields overwritten.
proof fn lemma_patch_header(
    pre: Seq<u8>,
    bbox: BoundingBox,
    size: u32,
    front: u32,
    back: u32,
    v: Version,
    rest: Seq<u8>,
    n: u32,
)
    ensures
        size == 0 ==> patched(
            pre + split_header(bbox, size, front, back, v) + rest,
            pre.len() as int + 4,
            n,
        ) == pre + split_header(bbox, n, front, back, v) + rest,
        front == 0 ==> patched(
            pre + split_header(bbox, size, front, back, v) + rest,
            pre.len() + (if v.current_tree() {
                8int
            } else {
                36int
            }),
            n,
        ) == pre + split_header(bbox, size, n, back, v) + rest,
        back == 0 ==> patched(
            pre + split_header(bbox, size, front, back, v) + rest,
            pre.len() + (if v.current_tree() {
                12int
            } else {
                40int
            }),
            n,
        ) == pre + split_header(bbox, size, front, n, v) + rest,
        split_header(bbox, size, front, back, v).len() == split_header_len(v),
{
    reveal(patched);
    reveal(split_header);
    let s = pre + split_header(bbox, size, front, back, v) + rest;
    let at_front = pre.len() + (if v.current_tree() {
        8int
    } else {
        36int
    });
    if size == 0 {
        assert(patched(s, pre.len() as int + 4, n) =~= pre + split_header(bbox, n, front, back, v) + rest);
    }
    if front == 0 {
        assert(patched(s, at_front, n) =~= pre + split_header(bbox, size, n, back, v) + rest);
    }
    if back == 0 {
        assert(patched(s, at_front + 4, n) =~= pre + split_header(bbox, size, front, n, v)
            + rest);
    }
}

fn write_child(buf: &mut Vec<u8>, version: Version, n: &BspNode, fix: Fixup) -> (r: Result<
    u32,
    EncodeError,
>)
    requires
        fix.base() <= old(buf)@.len(),
        fix.location() + 4 <= old(buf)@.len(),
    ensures
        r is Ok <==> node_encodable(n.deep_view(), version) && (n.deep_view() is Empty || old(
            buf,
        )@.len() - fix.base() <= u32::MAX),
        r matches Ok(offset) ==> {
            &&& offset == (if n.deep_view() is Empty {
                0int
            } else {
                old(buf)@.len() - fix.base()
            })
            &&& final(buf)@ == (if n.deep_view() is Empty {
                old(buf)@
            } else {
                patched(old(buf)@, fix.location(), offset)
            }) + child_bytes(n.deep_view(), version)
        },
    decreases n, 2nat,
{
    if n.is_empty() {
        assert(buf@ + child_bytes(n.deep_view(), version) =~= buf@);
        return Ok(0);
    }
    match fix.finish(buf) {
        Err(e) => {
            return Err(e);
        },
        Ok(offset) => match write_bsp_node(buf, version, n) {
            Err(e) => Err(e),
            Ok(()) => Ok(offset),
        },
    }
}

#[verifier::rlimit(60)]
fn write_split(buf: &mut Vec<u8>, version: Version, node: &BspNode) -> (r: Result<(), EncodeError>)
    requires
        node.deep_view() is Split,
    ensures
        r is Ok <==> node_encodable(node.deep_view(), version),
        r is Ok ==> final(buf)@ == old(buf)@ + split_bytes(
            node.deep_view()->Split_bbox,
            *node.deep_view()->Split_front,
            *node.deep_view()->Split_back,
            child_bytes(*node.deep_view()->Split_front, version),
            child_bytes(*node.deep_view()->Split_back, version),
            version,
        ),
    decreases node, 0nat,
{
    match node {
        BspNode::Split { bbox, front, back } => {
            let ghost fv = node_view(**front);
            let ghost bv = node_view(**back);
            let ghost pre = old(buf)@;
            let ghost fb = child_bytes(fv, version);
            let ghost bb = child_bytes(bv, version);
            assert(node.deep_view()->Split_front == Box::new(fv));
            assert(node.deep_view()->Split_back == Box::new(bv));
            let (size_fix, front_fix, back_fix) = write_split_header(buf, *bbox, version);
            let ghost b0 = buf@;
            assert(b0 == pre + split_header(*bbox, 0, 0, 0, version) + Seq::<u8>::empty()) by {
                assert(b0 =~= pre + split_header(*bbox, 0, 0, 0, version) + Seq::<u8>::empty());
            }
            let fo = match write_child(buf, version, front, front_fix) {
                Err(e) => {
                    return Err(e);
                },
                Ok(o) => o,
            };
            let ghost b1 = buf@;
            assert(b1 == pre + split_header(*bbox, 0, fo, 0, version) + fb) by {
                lemma_patch_header(pre, *bbox, 0, 0, 0, version, Seq::empty(), fo);
                if fv is Empty {
                    assert(b1 == b0 + fb);
                    assert(fb =~= Seq::<u8>::empty());
                    assert(b0 + fb =~= b0);
                    assert(pre + split_header(*bbox, 0, 0, 0, version) + fb =~= b0);
                } else {
                    assert(b1 == patched(b0, front_fix.location(), fo) + fb);
                    assert(patched(b0, front_fix.location(), fo) == pre + split_header(
                        *bbox,
                        0,
                        fo,
                        0,
                        version,
                    ) + Seq::<u8>::empty());
                    assert(pre + split_header(*bbox, 0, fo, 0, version) + Seq::<u8>::empty() + fb
                        =~= pre + split_header(*bbox, 0, fo, 0, version) + fb);
                }
            }
            assert(b1.len() == pre.len() + split_header_len(version) + fb.len()) by {
                lemma_patch_header(pre, *bbox, 0, fo, 0, version, Seq::empty(), 0);
            }
            let bo = match write_child(buf, version, back, back_fix) {
                Err(e) => {
                    return Err(e);
                },
                Ok(o) => o,
            };
            let ghost b2 = buf@;
            assert(b2 == pre + split_header(*bbox, 0, fo, bo, version) + (fb + bb)) by {
                lemma_patch_header(pre, *bbox, 0, fo, 0, version, fb, bo);
                if bv is Empty {
                    assert(bb =~= Seq::<u8>::empty());
                    assert(b2 == b1 + bb);
                    assert(b1 + bb =~= pre + split_header(*bbox, 0, fo, 0, version) + (fb + bb));
                } else {
                    assert(b2 == patched(b1, back_fix.location(), bo) + bb);
                    assert(patched(b1, back_fix.location(), bo) == pre + split_header(
                        *bbox,
                        0,
                        fo,
                        bo,
                        version,
                    ) + fb);
                    assert(pre + split_header(*bbox, 0, fo, bo, version) + fb + bb =~= pre
                        + split_header(*bbox, 0, fo, bo, version) + (fb + bb));
                }
            }
            let ghost total = split_size(fb.len() as int, bb.len() as int, version);
            assert(b2.len() - pre.len() == total) by {
                lemma_patch_header(pre, *bbox, 0, fo, bo, version, fb + bb, 0);
            }
            match size_fix.finish(buf) {
                Err(e) => {
                    return Err(e);
                },
                Ok(_) => {},
            }
            assert(buf@ == pre + split_bytes(*bbox, fv, bv, fb, bb, version)) by {
                lemma_patch_header(pre, *bbox, 0, fo, bo, version, fb + bb, total as u32);
                assert(buf@ == pre + split_header(*bbox, total as u32, fo, bo, version) + (fb + bb));
                assert(pre + split_header(*bbox, total as u32, fo, bo, version) + (fb + bb) =~= pre
                    + (split_header(*bbox, total as u32, fo, bo, version) + fb + bb));
            }
            Ok(())
        },
        _ => Ok(()),
    }
}

fn write_leaf(buf: &mut Vec<u8>, version: Version, bbox: BoundingBox, poly: &Polygon) -> (r:
    Result<(), EncodeError>)
    ensures
        r is Ok <==> leaf_encodable(poly.deep_view(), version),
        r is Ok ==> final(buf)@ == old(buf)@ + leaf_bytes(bbox, poly.deep_view(), version),
{
    if version.current_tree() {
        write_current_leaf(buf, bbox, poly)
    } else {
        write_legacy_leaf(buf, bbox, poly)
    }
}

/// The tail of a node: nothing in the current layout, a branch
/// terminator in the legacy one.
pub open spec fn node_tail(v: Version) -> Seq<u8> {
    if v.current_tree() {
        Seq::empty()
    } else {
        end_of_branch_bytes()
    }
}

fn write_tail(buf: &mut Vec<u8>, version: Version)
    ensures
        final(buf)@ == old(buf)@ + node_tail(version),
{
    if !version.current_tree() {
        write_end_of_branch(buf);
    } else {
        assert(buf@ + node_tail(version) =~= buf@);
    }
}

/// Appends the node and all below it.
pub fn write_bsp_node(buf: &mut Vec<u8>, version: Version, bsp_node: &BspNode) -> (r: Result<
    (),
    EncodeError,
>)
    ensures
        r is Ok <==> node_encodable(bsp_node.deep_view(), version),
        r is Ok ==> final(buf)@ == old(buf)@ + node_bytes(bsp_node.deep_view(), version),
    decreases bsp_node, 1nat,
{
    let ghost nv = bsp_node.deep_view();
    let ghost pre = old(buf)@;
    match bsp_node {
        BspNode::Split { .. } => {
            match write_split(buf, version, bsp_node) {
                Err(e) => {
                    return Err(e);
                },
                Ok(()) => {},
            }
            let ghost body = split_bytes(
                nv->Split_bbox,
                *nv->Split_front,
                *nv->Split_back,
                child_bytes(*nv->Split_front, version),
                child_bytes(*nv->Split_back, version),
                version,
            );
            write_tail(buf, version);
            assert(node_bytes(nv, version) == body + node_tail(version));
            assert(buf@ == pre + body + node_tail(version));
            assert(pre + body + node_tail(version) =~= pre + (body + node_tail(version)));
        },
        BspNode::Leaf { bbox, poly } => {
            match write_leaf(buf, version, *bbox, poly) {
                Err(e) => {
                    return Err(e);
                },
                Ok(()) => {},
            }
            let ghost body = leaf_bytes(*bbox, poly.deep_view(), version);
            write_tail(buf, version);
            assert(node_bytes(nv, version) == body + node_tail(version));
            assert(pre + body + node_tail(version) =~= pre + (body + node_tail(version)));
        },
        BspNode::Empty => {
            write_tail(buf, version);
            assert(node_bytes(nv, version) == node_tail(version));
        },
    }
    Ok(())
}

fn write_norm_counts(buf: &mut Vec<u8>, num_verts: usize, num_norms: usize)
    ensures
        final(buf)@ == old(buf)@ + norm_counts(num_verts as int, num_norms as int),
{
    reveal(norm_counts);
    let mut left = num_norms;
    let mut i: usize = 0;
    assert(buf@ =~= old(buf)@ + norm_counts(0, num_norms as int));
    while i < num_verts
        invariant
            i <= num_verts,
            left == num_norms - norm_start(i as int, num_norms as int),
            buf@ == old(buf)@ + norm_counts(i as int, num_norms as int),
        decreases num_verts - i,
    {
        let before = left;
        left = if left > 0xCC {
            left - 0xCC
        } else {
            0
        };
        buf.push((before - left) as u8);
        i += 1;
        assert(buf@ =~= old(buf)@ + norm_counts(i as int, num_norms as int)) by {
            reveal(norm_counts);
        }
    }
}

fn write_vecs(buf: &mut Vec<u8>, xs: &Vec<Vec3d>, from: usize, to: usize)
    requires
        from <= to <= xs@.len(),
    ensures
        final(buf)@ == old(buf)@ + vecs_bytes(xs@.subrange(from as int, to as int)),
{
    let mut j = from;
    assert(xs@.subrange(from as int, from as int) =~= Seq::<Vec3d>::empty());
    while j < to
        invariant
            from <= j <= to <= xs@.len(),
            buf@ == old(buf)@ + vecs_bytes(xs@.subrange(from as int, j as int)),
        decreases to - j,
    {
        write_vec3d(buf, xs[j]);
        proof {
            let a = xs@.subrange(from as int, j as int);
            let b = xs@.subrange(from as int, j + 1);
            assert(b.drop_last() =~= a);
            assert(b.last() == xs@[j as int]);
            assert(buf@ =~= old(buf)@ + vecs_bytes(b));
        }
        j += 1;
    }
}

fn write_pool(buf: &mut Vec<u8>, verts: &Vec<Vec3d>, norms: &Vec<Vec3d>)
    ensures
        final(buf)@ == old(buf)@ + pool_bytes(verts@, norms@, verts@.len() as int),
{
    reveal(pool_bytes);
    let n = norms.len();
    let mut start: usize = 0;
    let mut k: usize = 0;
    assert(buf@ =~= old(buf)@ + pool_bytes(verts@, norms@, 0));
    while k < verts.len()
        invariant
            n == norms@.len(),
            k <= verts@.len(),
            start == norm_start(k as int, n as int),
            buf@ == old(buf)@ + pool_bytes(verts@, norms@, k as int),
        decreases verts@.len() - k,
    {
        let end = if n - start >= 0xCC {
            start + 0xCC
        } else {
            n
        };
        assert(end == norm_start(k + 1, n as int));
        write_vec3d(buf, verts[k]);
        write_vecs(buf, norms, start, end);
        k += 1;
        start = end;
        assert(buf@ =~= old(buf)@ + pool_bytes(verts@, norms@, k as int)) by {
            reveal(pool_bytes);
        }
    }
}

/// The offset and the size of the pools chunk, if it can be encoded.
fn pools_layout(base: usize, nv: usize, nn: usize) -> (r: Option<(u32, u32)>)
    ensures
        r is Some <==> nn <= 0xCC * nv && pools_offset(nv as int, base as int) + 12 * (nv + nn)
            <= u32::MAX,
        r matches Some((offset, size)) ==> offset == pools_offset(nv as int, base as int) && size
            == offset + 12 * (nv + nn),
{
    if nv > 0xffff_ffff || nn > 0xffff_ffff {
        return None;
    }
    let at: u64 = (base % 4) as u64 + 20 + (nv % 4) as u64;
    let pad: u64 = (4 - at % 4) % 4;
    assert(pad == align_pad(base + 20 + nv));
    let offset: u64 = 20 + nv as u64 + pad;
    let size: u64 = offset + 12 * (nv as u64 + nn as u64);
    if nn as u64 > 0xCC * (nv as u64) || size > 0xffff_ffff {
        return None;
    }
    Some((offset as u32, size as u32))
}

/// The head of the pools chunk, with placeholders for the size and for
/// the offset of the first vertex.
fn write_pools_head(buf: &mut Vec<u8>, nv: u32, nn: u32) -> (r: (Fixup, Fixup))
    ensures
        final(buf)@ == old(buf)@ + u32_bytes(DEFFPOINTS) + u32_bytes(0) + u32_bytes(nv) + u32_bytes(
            nn,
        ) + u32_bytes(0),
        r.0.base() == old(buf)@.len() && r.1.base() == old(buf)@.len(),
        r.0.location() == old(buf)@.len() + 4,
        r.1.location() == old(buf)@.len() + 16,
{
    let base = buf.len();
    write_u32(buf, DEFFPOINTS);
    let size_fix = Fixup::new(buf, base);
    write_u32(buf, nv);
    write_u32(buf, nn);
    let offset_fix = Fixup::new(buf, base);
    (size_fix, offset_fix)
}

/// How the pools chunk comes together: a head with two placeholders, the
/// counts and the padding, the first placeholder's value, the pool, the
/// second placeholder's value.
proof fn lemma_pools_assembly(
    pre: Seq<u8>,
    tag: Seq<u8>,
    nv: Seq<u8>,
    nn: Seq<u8>,
    counts: Seq<u8>,
    pad: Seq<u8>,
    pool: Seq<u8>,
    offset: u32,
    size: u32,
    b0: Seq<u8>,
    b1: Seq<u8>,
    b2: Seq<u8>,
    b3: Seq<u8>,
)
    requires
        tag.len() == 4,
        nv.len() == 4,
        nn.len() == 4,
        b0 == pre + tag + u32_bytes(0) + nv + nn + u32_bytes(0),
        b1 == patched(b0 + counts + pad, pre.len() as int + 16, offset),
        b2 == b1 + pool,
        b3 == patched(b2, pre.len() as int + 4, size),
    ensures
        b3 == pre + (tag + u32_bytes(size) + nv + nn + u32_bytes(offset) + counts + pad + pool),
        b1.len() == b0.len() + counts.len() + pad.len(),
{
    reveal(patched);
    assert(b3 =~= pre + (tag + u32_bytes(size) + nv + nn + u32_bytes(offset) + counts + pad
        + pool));
}

fn write_pools(buf: &mut Vec<u8>, verts: &Vec<Vec3d>, norms: &Vec<Vec3d>) -> (r: Result<
    (),
    EncodeError,
>)
    ensures
        r is Ok <==> pools_encodable(verts@, norms@, old(buf)@.len() as int),
        r is Ok ==> final(buf)@ == old(buf)@ + pools_bytes(verts@, norms@, old(buf)@.len() as int),
        r is Err ==> final(buf)@ == old(buf)@,
{
    reveal(pools_bytes);
    let nv = verts.len();
    let nn = norms.len();
    let base = buf.len();
    let (offset, size) = match pools_layout(base, nv, nn) {
        None => {
            return Err(EncodeError::Unrepresentable);
        },
        Some(k) => k,
    };
    let ghost pre = old(buf)@;
    let ghost pool = pool_bytes(verts@, norms@, nv as int);
    let ghost counts = norm_counts(nv as int, nn as int);
    let ghost pad = zeros(align_pad(base + 20 + nv));
    proof {
        lemma_pool_len(verts@, norms@, nv as int);
        lemma_norm_counts_len(nv as int, nn as int);
    }
    let (size_fix, offset_fix) = write_pools_head(buf, nv as u32, nn as u32);
    let ghost b0 = buf@;
    write_norm_counts(buf, nv, nn);
    assert(buf@.len() == base + 20 + nv);
    align_buf(buf);
    assert(buf@ == b0 + counts + pad);
    assert(buf@.len() - base == offset);
    match offset_fix.finish(buf) {
        Err(e) => {
            return Err(e);
        },
        Ok(_) => {},
    }
    let ghost b1 = buf@;
    write_pool(buf, verts, norms);
    let ghost b2 = buf@;
    proof {
        lemma_pools_assembly(
            pre,
            u32_bytes(DEFFPOINTS),
            u32_bytes(nv as u32),
            u32_bytes(nn as u32),
            counts,
            pad,
            pool,
            offset,
            size,
            b0,
            b1,
            b2,
            patched(b2, pre.len() as int + 4, size),
        );
    }
    assert(b2.len() - base == size);
    match size_fix.finish(buf) {
        Err(e) => {
            return Err(e);
        },
        Ok(_) => {},
    }
    Ok(())
}

/// Appends the buffer of a subobject: the pools chunk, then the tree.
pub fn write_bsp_data(buf: &mut Vec<u8>, version: Version, bsp_data: &BspData) -> (r: Result<
    (),
    EncodeError,
>)
    ensures
        r is Ok <==> bsp_data_encodable(bsp_data.deep_view(), version, old(buf)@.len() as int),
        r is Ok ==> final(buf)@ == old(buf)@ + bsp_data_bytes(
            bsp_data.deep_view(),
            version,
            old(buf)@.len() as int,
        ),
{
    let ghost base = buf@.len() as int;
    match write_pools(buf, &bsp_data.verts, &bsp_data.norms) {
        Err(e) => {
            return Err(e);
        },
        Ok(()) => {},
    }
    match write_bsp_node(buf, version, &bsp_data.collision_tree) {
        Err(e) => Err(e),
        Ok(()) => {
            assert(buf@ =~= old(buf)@ + bsp_data_bytes(bsp_data.deep_view(), version, base));
            Ok(())
        },
    }
}

} // verus!
