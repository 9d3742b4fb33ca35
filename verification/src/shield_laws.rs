//! What holds of the shield tree codec: what the writer emits, the reader
//! reads back; the offsets of a split point behind its header and inside
//! its chunk.

use vstd::prelude::*;
use crate::bsp_read::spec_chunk_header;
use crate::bytes::{lemma_stands_split, lemma_u32_stands, list_bytes, stands_at, u32_bytes, Record};
use crate::error::DecodeError;
use crate::geom::{bbox_bytes, lemma_bbox_roundtrip, vec3d_bytes, BoundingBox};
use crate::ids::PolygonId;
use crate::shield::{
    lemma_polygon_ids_len, shield_leaf_bytes, shield_node_bytes, shield_node_encodable,
    shield_split_header, shield_split_header_len, spec_shield_child, spec_shield_node, tag_bytes,
    SpecShieldNode, LEAF, SPLIT,
};
use crate::version::Version;

verus! {

/// The node at `start` of `s` reads as `n`.
#[verifier::opaque]
pub open spec fn shield_reads(s: Seq<u8>, start: int, narrow: bool, n: SpecShieldNode) -> bool {
    spec_shield_node(s, start, narrow) == Ok::<SpecShieldNode, DecodeError>(n)
}

/// The head of a shield chunk that stands in a buffer is the head read
/// there.
proof fn lemma_shield_header_stands(s: Seq<u8>, start: int, tag: u32, size: u32, narrow: bool)
    requires
        tag <= 0xff,
        stands_at(s, start, tag_bytes(tag, narrow) + u32_bytes(size)),
        start + size <= s.len(),
    ensures
        spec_chunk_header(s, start, narrow) == Ok::<(u32, int, int), DecodeError>(
            (tag, start + tag_bytes(tag, narrow).len() + 4, start + size),
        ),
        tag_bytes(tag, narrow).len() == shield_split_header_len(narrow) - 36,
{
    lemma_stands_split(s, start, tag_bytes(tag, narrow), u32_bytes(size));
    lemma_u32_stands(s, start + tag_bytes(tag, narrow).len(), size);
    if narrow {
        assert(s[start] == s.subrange(start, start + 1)[0]);
    } else {
        lemma_u32_stands(s, start, tag);
    }
}

/// What a node writes is not empty.
pub proof fn lemma_shield_bytes_nonempty(n: SpecShieldNode, narrow: bool)
    ensures
        shield_node_bytes(n, narrow).len() >= 29,
{
    reveal(shield_split_header);
}

/// The header of a split takes the bytes its layout says.
pub proof fn lemma_shield_header_len(bbox: BoundingBox, size: u32, fo: u32, bo: u32, narrow: bool)
    ensures
        shield_split_header(bbox, size, fo, bo, narrow).len() == shield_split_header_len(narrow),
{
    reveal(shield_split_header);
}

/// A leaf reads back where it stands.
proof fn lemma_shield_leaf_reads(
    s: Seq<u8>,
    start: int,
    bbox: BoundingBox,
    poly_list: Seq<PolygonId>,
    narrow: bool,
)
    requires
        shield_split_header_len(narrow) - 4 + 4 * poly_list.len() <= u32::MAX,
        stands_at(s, start, shield_leaf_bytes(bbox, poly_list, narrow)),
    ensures
        shield_reads(s, start, narrow, SpecShieldNode::Leaf { bbox, poly_list }),
{
    reveal(shield_reads);
    let v = Version::latest();
    let t = tag_bytes(LEAF, narrow);
    let size = (shield_split_header_len(narrow) - 8 + 4 + 4 * poly_list.len()) as u32;
    let b = bbox_bytes(bbox);
    let l = list_bytes::<PolygonId>(poly_list, v);
    lemma_polygon_ids_len(poly_list, v);
    assert(shield_leaf_bytes(bbox, poly_list, narrow) == ((t + u32_bytes(size)) + b) + l);
    lemma_stands_split(s, start, (t + u32_bytes(size)) + b, l);
    lemma_stands_split(s, start, t + u32_bytes(size), b);
    lemma_shield_header_stands(s, start, LEAF, size, narrow);
    let body = start + t.len() + 4;
    assert(vec3d_bytes(bbox.min).len() == 12);
    lemma_bbox_roundtrip(bbox, s, body);
    assert(forall|i: int| 0 <= i < poly_list.len() ==> <PolygonId as Record>::encodable(
        #[trigger] poly_list[i],
        v,
    ));
    assert(forall|i: int| 0 <= i < poly_list.len() ==> <PolygonId as Record>::faithful(
        #[trigger] poly_list[i],
        v,
    ));
    <Vec<PolygonId> as Record>::lemma_roundtrip(poly_list, v, s, body + 24);
}

/// A split reads back once its children do.
proof fn lemma_shield_split_reads(
    s: Seq<u8>,
    start: int,
    bbox: BoundingBox,
    front: SpecShieldNode,
    back: SpecShieldNode,
    size: u32,
    fo: u32,
    bo: u32,
    narrow: bool,
)
    requires
        stands_at(s, start, shield_split_header(bbox, size, fo, bo, narrow)),
        start + size <= s.len(),
        0 < fo && start + fo <= s.len(),
        0 < bo && start + bo <= s.len(),
        shield_reads(s, start + fo, narrow, front),
        shield_reads(s, start + bo, narrow, back),
    ensures
        shield_reads(
            s,
            start,
            narrow,
            SpecShieldNode::Split { bbox, front: Box::new(front), back: Box::new(back) },
        ),
{
    reveal(shield_reads);
    reveal(shield_split_header);
    let t = tag_bytes(SPLIT, narrow);
    let a = u32_bytes(size);
    let b = bbox_bytes(bbox);
    let c = u32_bytes(fo);
    let d = u32_bytes(bo);
    assert(shield_split_header(bbox, size, fo, bo, narrow) == (((t + a) + b) + c) + d);
    lemma_stands_split(s, start, ((t + a) + b) + c, d);
    lemma_stands_split(s, start, (t + a) + b, c);
    lemma_stands_split(s, start, t + a, b);
    lemma_shield_header_stands(s, start, SPLIT, size, narrow);
    let body = start + t.len() + 4;
    assert(vec3d_bytes(bbox.min).len() == 12);
    lemma_bbox_roundtrip(bbox, s, body);
    lemma_u32_stands(s, body + 24, fo);
    lemma_u32_stands(s, body + 28, bo);
    assert(spec_shield_child(s, start, fo, narrow) == Ok::<SpecShieldNode, DecodeError>(front));
    assert(spec_shield_child(s, start, bo, narrow) == Ok::<SpecShieldNode, DecodeError>(back));
}

/// The pieces of a split that stands in a buffer: its header, its front
/// child, its back child.
proof fn lemma_shield_split_pieces(s: Seq<u8>, start: int, n: SpecShieldNode, narrow: bool)
    requires
        n is Split,
        stands_at(s, start, shield_node_bytes(n, narrow)),
    ensures
        ({
            let h = shield_split_header_len(narrow);
            let f = shield_node_bytes(*n->Split_front, narrow);
            let b = shield_node_bytes(*n->Split_back, narrow);
            &&& stands_at(
                s,
                start,
                shield_split_header(
                    n->Split_bbox,
                    (h + f.len() + b.len()) as u32,
                    h as u32,
                    (h + f.len()) as u32,
                    narrow,
                ),
            )
            &&& stands_at(s, start + h, f)
            &&& stands_at(s, start + h + f.len(), b)
            &&& f.len() >= 29
            &&& b.len() >= 29
        }),
{
    let h = shield_split_header_len(narrow);
    let f = shield_node_bytes(*n->Split_front, narrow);
    let b = shield_node_bytes(*n->Split_back, narrow);
    let head = shield_split_header(
        n->Split_bbox,
        (h + f.len() + b.len()) as u32,
        h as u32,
        (h + f.len()) as u32,
        narrow,
    );
    lemma_shield_header_len(
        n->Split_bbox,
        (h + f.len() + b.len()) as u32,
        h as u32,
        (h + f.len()) as u32,
        narrow,
    );
    assert(shield_node_bytes(n, narrow) == (head + f) + b);
    lemma_stands_split(s, start, head + f, b);
    lemma_stands_split(s, start, head, f);
    lemma_shield_bytes_nonempty(*n->Split_front, narrow);
    lemma_shield_bytes_nonempty(*n->Split_back, narrow);
}

proof fn lemma_shield_tree_roundtrip(n: SpecShieldNode, s: Seq<u8>, start: int, narrow: bool)
    requires
        shield_node_encodable(n, narrow),
        stands_at(s, start, shield_node_bytes(n, narrow)),
    ensures
        shield_reads(s, start, narrow, n),
    decreases n,
{
    match n {
        SpecShieldNode::Leaf { bbox, poly_list } => {
            lemma_shield_leaf_reads(s, start, bbox, poly_list, narrow);
        },
        SpecShieldNode::Split { bbox, front, back } => {
            lemma_shield_split_pieces(s, start, n, narrow);
            let h = shield_split_header_len(narrow);
            let f = shield_node_bytes(*front, narrow);
            let b = shield_node_bytes(*back, narrow);
            lemma_shield_tree_roundtrip(*front, s, start + h, narrow);
            lemma_shield_tree_roundtrip(*back, s, start + h + f.len(), narrow);
            lemma_shield_split_reads(
                s,
                start,
                bbox,
                *front,
                *back,
                (h + f.len() + b.len()) as u32,
                h as u32,
                (h + f.len()) as u32,
                narrow,
            );
        },
    }
}

/// A shield tree that the writer accepts reads back from the bytes it
/// wrote, wherever in a buffer they stand, with either width of tags.
pub proof fn lemma_shield_node_roundtrip(n: SpecShieldNode, s: Seq<u8>, start: int, narrow: bool)
    requires
        shield_node_encodable(n, narrow),
        stands_at(s, start, shield_node_bytes(n, narrow)),
    ensures
        spec_shield_node(s, start, narrow) == Ok::<SpecShieldNode, DecodeError>(n),
{
    reveal(shield_reads);
    lemma_shield_tree_roundtrip(n, s, start, narrow);
}

/// The offsets that a split of the shield tree is written with point
/// past its own tag and size field and strictly inside its chunk: the
/// front offset at the first byte of the front child, behind the header;
/// the back offset at the first byte of the back child, behind the front
/// child.
pub proof fn lemma_shield_offsets_inside(n: SpecShieldNode, narrow: bool)
    requires
        n is Split,
    ensures
        ({
            let h = shield_split_header_len(narrow);
            let f = shield_node_bytes(*n->Split_front, narrow);
            let b = shield_node_bytes(*n->Split_back, narrow);
            let all = shield_node_bytes(n, narrow);
            &&& all.len() == h + f.len() + b.len()
            &&& 8 < h < all.len()
            &&& 8 < h + f.len() < all.len()
            &&& all.subrange(h, h + f.len()) == f
            &&& all.subrange(h + f.len(), all.len() as int) == b
        }),
{
    let h = shield_split_header_len(narrow);
    let f = shield_node_bytes(*n->Split_front, narrow);
    let b = shield_node_bytes(*n->Split_back, narrow);
    let head = shield_split_header(
        n->Split_bbox,
        (h + f.len() + b.len()) as u32,
        h as u32,
        (h + f.len()) as u32,
        narrow,
    );
    lemma_shield_header_len(
        n->Split_bbox,
        (h + f.len() + b.len()) as u32,
        h as u32,
        (h + f.len()) as u32,
        narrow,
    );
    lemma_shield_bytes_nonempty(*n->Split_front, narrow);
    lemma_shield_bytes_nonempty(*n->Split_back, narrow);
    let all = shield_node_bytes(n, narrow);
    assert(all == head + f + b);
    assert(all.subrange(h, h + f.len()) =~= f);
    assert(all.subrange(h + f.len(), all.len() as int) =~= b);
}

} // verus!
