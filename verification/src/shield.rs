//! The shield mesh and its partition tree.
//!
//! The tree is laid out as the subobject tree is: chunks with a tag and a
//! size, splits that name their children by the distance from their own
//! start. Its leaves hold lists of polygon ids. Old revisions write the
//! tag in one byte, newer ones in four.

use vstd::prelude::*;
use crate::bsp_read::{parse_chunk_header, spec_chunk_header};
use crate::bytes::{
    decoded, has_bytes, le_u32, lemma_stands_split, lemma_u32_stands, list_bytes, patched,
    read_list, read_u32, spec_list, spec_u32, u32_bytes, write_u32, write_u8, Fixup, Parsed, Record,
};
use crate::error::{DecodeError, EncodeError, Violation};
use crate::geom::{
    bbox_bytes, lemma_vec3d_roundtrip, read_bbox, read_vec3d, spec_bbox, spec_vec3d, vec3d_bytes,
    write_bbox, write_vec3d, BoundingBox, Vec3d,
};
use crate::ids::{PolygonId, VertexId};
use crate::version::Version;

verus! {

/// The tag of a split.
pub const SPLIT: u32 = 0;

/// The tag of a leaf.
pub const LEAF: u32 = 1;

/// A triangle of the shield mesh, with the triangles across its edges.
#[derive(Clone, Copy, PartialEq, Eq, Debug, Hash)]
pub struct ShieldPolygon {
    pub normal: Vec3d,
    pub verts: (VertexId, VertexId, VertexId),
    pub neighbors: (PolygonId, PolygonId, PolygonId),
}

impl View for ShieldPolygon {
    type V = ShieldPolygon;

    open spec fn view(&self) -> ShieldPolygon {
        *self
    }
}

impl DeepView for ShieldPolygon {
    type V = ShieldPolygon;

    open spec fn deep_view(&self) -> ShieldPolygon {
        *self
    }
}

/// A node of the shield tree.
#[derive(PartialEq, Eq, Debug)]
pub enum ShieldNode {
    Split { bbox: BoundingBox, front: Box<ShieldNode>, back: Box<ShieldNode> },
    Leaf { bbox: BoundingBox, poly_list: Vec<PolygonId> },
}

/// What a [`ShieldNode`] holds.
pub enum SpecShieldNode {
    Split { bbox: BoundingBox, front: Box<SpecShieldNode>, back: Box<SpecShieldNode> },
    Leaf { bbox: BoundingBox, poly_list: Seq<PolygonId> },
}

/// What a node holds, with all below it.
pub open spec fn shield_view(n: ShieldNode) -> SpecShieldNode
    decreases n,
{
    match n {
        ShieldNode::Split { bbox, front, back } => SpecShieldNode::Split {
            bbox,
            front: Box::new(shield_view(*front)),
            back: Box::new(shield_view(*back)),
        },
        ShieldNode::Leaf { bbox, poly_list } => SpecShieldNode::Leaf { bbox, poly_list: poly_list@ },
    }
}

impl DeepView for ShieldNode {
    type V = SpecShieldNode;

    open spec fn deep_view(&self) -> SpecShieldNode {
        shield_view(*self)
    }
}

/// The shield: its vertices, its triangles, and the tree over them if the
/// file has one.
#[derive(PartialEq, Eq, Debug)]
pub struct ShieldData {
    pub verts: Vec<Vec3d>,
    pub polygons: Vec<ShieldPolygon>,
    pub collision_tree: Option<ShieldNode>,
}

/// What a [`ShieldData`] holds.
pub struct SpecShieldData {
    pub verts: Seq<Vec3d>,
    pub polygons: Seq<ShieldPolygon>,
    pub collision_tree: Option<SpecShieldNode>,
}

impl DeepView for ShieldData {
    type V = SpecShieldData;

    open spec fn deep_view(&self) -> SpecShieldData {
        SpecShieldData {
            verts: self.verts@,
            polygons: self.polygons@,
            collision_tree: match self.collision_tree {
                Some(t) => Some(t.deep_view()),
                None => None,
            },
        }
    }
}

// ---------------------------------------------------------------------
// Reading
// ---------------------------------------------------------------------

/// A triangle: its normal, three vertex ids, three neighbour ids.
pub open spec fn spec_shield_polygon(s: Seq<u8>, pos: int) -> Parsed<ShieldPolygon> {
    if has_bytes(s, pos, 36) {
        Ok(
            (
                ShieldPolygon {
                    normal: spec_vec3d(s, pos)->Ok_0.0,
                    verts: (
                        VertexId(le_u32(s.subrange(pos + 12, pos + 16))),
                        VertexId(le_u32(s.subrange(pos + 16, pos + 20))),
                        VertexId(le_u32(s.subrange(pos + 20, pos + 24))),
                    ),
                    neighbors: (
                        PolygonId(le_u32(s.subrange(pos + 24, pos + 28))),
                        PolygonId(le_u32(s.subrange(pos + 28, pos + 32))),
                        PolygonId(le_u32(s.subrange(pos + 32, pos + 36))),
                    ),
                },
                pos + 36,
            ),
        )
    } else {
        Err(DecodeError::TruncatedChunk)
    }
}

/// A triangle in the format.
pub open spec fn shield_polygon_bytes(p: ShieldPolygon) -> Seq<u8> {
    vec3d_bytes(p.normal) + u32_bytes(p.verts.0.0) + u32_bytes(p.verts.1.0) + u32_bytes(
        p.verts.2.0,
    ) + u32_bytes(p.neighbors.0.0) + u32_bytes(p.neighbors.1.0) + u32_bytes(p.neighbors.2.0)
}

impl Record for ShieldPolygon {
    open spec fn parse(s: Seq<u8>, pos: int, v: Version) -> Parsed<ShieldPolygon> {
        spec_shield_polygon(s, pos)
    }

    open spec fn bytes(m: ShieldPolygon, v: Version) -> Seq<u8> {
        shield_polygon_bytes(m)
    }

    open spec fn encodable(m: ShieldPolygon, v: Version) -> bool {
        true
    }

    open spec fn faithful(m: ShieldPolygon, v: Version) -> bool {
        true
    }

    proof fn lemma_roundtrip(m: ShieldPolygon, v: Version, s: Seq<u8>, pos: int) {
        let a = vec3d_bytes(m.normal);
        let b = u32_bytes(m.verts.0.0);
        let c = u32_bytes(m.verts.1.0);
        let d = u32_bytes(m.verts.2.0);
        let e = u32_bytes(m.neighbors.0.0);
        let f = u32_bytes(m.neighbors.1.0);
        let g = u32_bytes(m.neighbors.2.0);
        lemma_stands_split(s, pos, a + b + c + d + e + f, g);
        lemma_stands_split(s, pos, a + b + c + d + e, f);
        lemma_stands_split(s, pos, a + b + c + d, e);
        lemma_stands_split(s, pos, a + b + c, d);
        lemma_stands_split(s, pos, a + b, c);
        lemma_stands_split(s, pos, a, b);
        lemma_vec3d_roundtrip(m.normal, s, pos);
        lemma_u32_stands(s, pos + 12, m.verts.0.0);
        lemma_u32_stands(s, pos + 16, m.verts.1.0);
        lemma_u32_stands(s, pos + 20, m.verts.2.0);
        lemma_u32_stands(s, pos + 24, m.neighbors.0.0);
        lemma_u32_stands(s, pos + 28, m.neighbors.1.0);
        lemma_u32_stands(s, pos + 32, m.neighbors.2.0);
    }

    fn read(buf: &[u8], pos: usize, v: Version) -> (r: Result<(ShieldPolygon, usize), DecodeError>) {
        let (normal, p) = read_vec3d(buf, pos)?;
        let (a, p) = read_u32(buf, p)?;
        let (b, p) = read_u32(buf, p)?;
        let (c, p) = read_u32(buf, p)?;
        let (x, p) = read_u32(buf, p)?;
        let (y, p) = read_u32(buf, p)?;
        let (z, p) = read_u32(buf, p)?;
        Ok(
            (
                ShieldPolygon {
                    normal,
                    verts: (VertexId(a), VertexId(b), VertexId(c)),
                    neighbors: (PolygonId(x), PolygonId(y), PolygonId(z)),
                },
                p,
            ),
        )
    }

    fn write_to(&self, w: &mut Vec<u8>, v: Version) -> (r: Result<(), EncodeError>) {
        write_vec3d(w, self.normal);
        write_u32(w, self.verts.0.0);
        write_u32(w, self.verts.1.0);
        write_u32(w, self.verts.2.0);
        write_u32(w, self.neighbors.0.0);
        write_u32(w, self.neighbors.1.0);
        write_u32(w, self.neighbors.2.0);
        assert(w@ =~= old(w)@ + shield_polygon_bytes(*self));
        Ok(())
    }
}

/// The child that a split at `start` names by `offset`. A split of the
/// shield tree has both children: offset zero is refused.
pub open spec fn spec_shield_child(s: Seq<u8>, start: int, offset: u32, tag_is_u8: bool) -> Result<
    SpecShieldNode,
    DecodeError,
>
    decreases s.len() - start, 0nat,
{
    if offset == 0 {
        Err(DecodeError::StructuralViolation(Violation::BadValue))
    } else if start + offset > s.len() {
        Err(DecodeError::TruncatedChunk)
    } else {
        spec_shield_node(s, start + offset, tag_is_u8)
    }
}

/// The node at `start`: a split holds its box, the front offset and the
/// back offset; a leaf holds its box and a list of polygon ids.
pub open spec fn spec_shield_node(s: Seq<u8>, start: int, tag_is_u8: bool) -> Result<
    SpecShieldNode,
    DecodeError,
>
    decreases s.len() - start, 1nat,
{
    match spec_chunk_header(s, start, tag_is_u8) {
        Err(e) => Err(e),
        Ok((tag, body, _)) => if tag == SPLIT {
            match spec_bbox(s, body) {
                Err(e) => Err(e),
                Ok((bbox, p0)) => match spec_u32(s, p0) {
                    Err(e) => Err(e),
                    Ok((front_offset, p1)) => match spec_shield_child(
                        s,
                        start,
                        front_offset,
                        tag_is_u8,
                    ) {
                        Err(e) => Err(e),
                        Ok(f) => match spec_u32(s, p1) {
                            Err(e) => Err(e),
                            Ok((back_offset, _)) => match spec_shield_child(
                                s,
                                start,
                                back_offset,
                                tag_is_u8,
                            ) {
                                Err(e) => Err(e),
                                Ok(b) => Ok(
                                    SpecShieldNode::Split {
                                        bbox,
                                        front: Box::new(f),
                                        back: Box::new(b),
                                    },
                                ),
                            },
                        },
                    },
                },
            }
        } else if tag == LEAF {
            match spec_bbox(s, body) {
                Err(e) => Err(e),
                Ok((bbox, p0)) => match spec_list::<PolygonId>(s, p0, Version::latest()) {
                    Err(e) => Err(e),
                    Ok((poly_list, _)) => Ok(SpecShieldNode::Leaf { bbox, poly_list }),
                },
            }
        } else {
            Err(DecodeError::StructuralViolation(Violation::BadTreeTag))
        },
    }
}

fn parse_shield_child(buf: &[u8], start: usize, offset: u32, tag_is_u8: bool) -> (r: Result<
    ShieldNode,
    DecodeError,
>)
    requires
        start <= buf@.len(),
    ensures
        decoded(r, spec_shield_child(buf@, start as int, offset, tag_is_u8)),
    decreases buf@.len() - start, 0nat,
{
    if offset == 0 {
        return Err(DecodeError::StructuralViolation(Violation::BadValue));
    }
    if offset as usize > buf.len() - start {
        return Err(DecodeError::TruncatedChunk);
    }
    parse_shield_node_at(buf, start + offset as usize, tag_is_u8)
}

fn parse_shield_node_at(buf: &[u8], start: usize, tag_is_u8: bool) -> (r: Result<
    ShieldNode,
    DecodeError,
>)
    ensures
        decoded(r, spec_shield_node(buf@, start as int, tag_is_u8)),
    decreases buf@.len() - start, 1nat,
{
    let (tag, body, _) = parse_chunk_header(buf, start, tag_is_u8)?;
    if tag == SPLIT {
        let (bbox, p) = read_bbox(buf, body)?;
        let (front_offset, p) = read_u32(buf, p)?;
        let front = parse_shield_child(buf, start, front_offset, tag_is_u8)?;
        let (back_offset, _) = read_u32(buf, p)?;
        let back = parse_shield_child(buf, start, back_offset, tag_is_u8)?;
        Ok(ShieldNode::Split { bbox, front: Box::new(front), back: Box::new(back) })
    } else if tag == LEAF {
        let (bbox, p) = read_bbox(buf, body)?;
        let (poly_list, _) = read_list::<PolygonId>(buf, p, Version::newest())?;
        assert(poly_list.deep_view() =~= poly_list@);
        Ok(ShieldNode::Leaf { bbox, poly_list })
    } else {
        Err(DecodeError::StructuralViolation(Violation::BadTreeTag))
    }
}

/// Decodes the shield tree that fills the buffer.
pub fn parse_shield_node(buf: &[u8], version: Version) -> (r: Result<ShieldNode, DecodeError>)
    ensures
        decoded(r, spec_shield_node(buf@, 0, version.narrow_shield_tags())),
{
    parse_shield_node_at(buf, 0, !version.wide_shield_tags())
}

// ---------------------------------------------------------------------
// Writing
// ---------------------------------------------------------------------

/// A tag in one byte or in four.
pub open spec fn tag_bytes(tag: u32, tag_is_u8: bool) -> Seq<u8> {
    if tag_is_u8 {
        seq![tag as u8]
    } else {
        u32_bytes(tag)
    }
}

/// The bytes a split holds before its children: tag, size, box, offsets.
pub open spec fn shield_split_header_len(tag_is_u8: bool) -> int {
    if tag_is_u8 {
        37
    } else {
        40
    }
}

/// The header of a split with the given size and offsets.
#[verifier::opaque]
pub open spec fn shield_split_header(
    bbox: BoundingBox,
    size: u32,
    front: u32,
    back: u32,
    tag_is_u8: bool,
) -> Seq<u8> {
    tag_bytes(SPLIT, tag_is_u8) + u32_bytes(size) + bbox_bytes(bbox) + u32_bytes(front)
        + u32_bytes(back)
}

/// A split over children that take the bytes `f` and `b`: the front child
/// begins behind the header, the back child behind the front child.
pub open spec fn shield_split_bytes(bbox: BoundingBox, f: Seq<u8>, b: Seq<u8>, tag_is_u8: bool) -> Seq<
    u8,
> {
    let h = shield_split_header_len(tag_is_u8);
    shield_split_header(
        bbox,
        (h + f.len() + b.len()) as u32,
        h as u32,
        (h + f.len()) as u32,
        tag_is_u8,
    ) + f + b
}

/// A leaf: tag, size, box, and the list of polygon ids.
pub open spec fn shield_leaf_bytes(bbox: BoundingBox, poly_list: Seq<PolygonId>, tag_is_u8: bool) -> Seq<
    u8,
> {
    tag_bytes(LEAF, tag_is_u8) + u32_bytes(
        (shield_split_header_len(tag_is_u8) - 8 + 4 + 4 * poly_list.len()) as u32,
    ) + bbox_bytes(bbox) + list_bytes::<PolygonId>(poly_list, Version::latest())
}

/// A node with all below it.
pub open spec fn shield_node_bytes(n: SpecShieldNode, tag_is_u8: bool) -> Seq<u8>
    decreases n,
{
    match n {
        SpecShieldNode::Split { bbox, front, back } => shield_split_bytes(
            bbox,
            shield_node_bytes(*front, tag_is_u8),
            shield_node_bytes(*back, tag_is_u8),
            tag_is_u8,
        ),
        SpecShieldNode::Leaf { bbox, poly_list } => shield_leaf_bytes(bbox, poly_list, tag_is_u8),
    }
}

/// Whether every size, offset and count of the tree fits its field.
pub open spec fn shield_node_encodable(n: SpecShieldNode, tag_is_u8: bool) -> bool
    decreases n,
{
    match n {
        SpecShieldNode::Split { bbox, front, back } => {
            &&& shield_node_encodable(*front, tag_is_u8)
            &&& shield_node_encodable(*back, tag_is_u8)
            &&& shield_split_header_len(tag_is_u8) + shield_node_bytes(*front, tag_is_u8).len()
                + shield_node_bytes(*back, tag_is_u8).len() <= u32::MAX
        },
        SpecShieldNode::Leaf { bbox, poly_list } => shield_split_header_len(tag_is_u8) - 4 + 4
            * poly_list.len() <= u32::MAX,
    }
}

fn write_chunk_type(buf: &mut Vec<u8>, tag: u32, tag_is_u8: bool)
    requires
        tag <= 0xff,
    ensures
        final(buf)@ == old(buf)@ + tag_bytes(tag, tag_is_u8),
{
    if tag_is_u8 {
        write_u8(buf, tag as u8);
    } else {
        write_u32(buf, tag);
    }
}

/// Four bytes for each id.
pub proof fn lemma_polygon_ids_len(xs: Seq<PolygonId>, v: Version)
    ensures
        crate::bytes::items_bytes::<PolygonId>(xs, v).len() == 4 * xs.len(),
    decreases xs.len(),
{
    if xs.len() > 0 {
        lemma_polygon_ids_len(xs.drop_last(), v);
    }
}

/// How a chunk with one placeholder comes together.
proof fn lemma_shield_leaf_assembly(
    pre: Seq<u8>,
    tag: Seq<u8>,
    content: Seq<u8>,
    size: u32,
    b0: Seq<u8>,
    b1: Seq<u8>,
)
    requires
        b0 == pre + tag + u32_bytes(0) + content,
        b1 == patched(b0, (pre.len() + tag.len()) as int, size),
    ensures
        b1 == pre + (tag + u32_bytes(size) + content),
{
    reveal(patched);
    assert(b1 =~= pre + (tag + u32_bytes(size) + content));
}

fn write_shield_leaf(buf: &mut Vec<u8>, bbox: BoundingBox, poly_list: &Vec<PolygonId>, tag_is_u8: bool) -> (r:
    Result<(), EncodeError>)
    ensures
        r is Ok <==> shield_split_header_len(tag_is_u8) - 4 + 4 * poly_list@.len() <= u32::MAX,
        r is Ok ==> final(buf)@ == old(buf)@ + shield_leaf_bytes(bbox, poly_list@, tag_is_u8),
{
    let v = Version::newest();
    if poly_list.len() > 0xffff_ffff {
        return Err(EncodeError::Unrepresentable);
    }
    let head: u64 = if tag_is_u8 {
        33
    } else {
        36
    };
    if head + 4 * (poly_list.len() as u64) > 0xffff_ffff {
        return Err(EncodeError::Unrepresentable);
    }
    let ghost pre = old(buf)@;
    proof {
        lemma_polygon_ids_len(poly_list@, v);
        assert(poly_list.deep_view() =~= poly_list@);
    }
    let base = buf.len();
    write_chunk_type(buf, LEAF, tag_is_u8);
    let size_fix = Fixup::new(buf, base);
    write_bbox(buf, bbox);
    match poly_list.write_to(buf, v) {
        Err(e) => {
            assert(false);
            return Err(e);
        },
        Ok(()) => {},
    }
    let ghost content = bbox_bytes(bbox) + list_bytes::<PolygonId>(poly_list@, v);
    let ghost b0 = buf@;
    assert(b0 == pre + tag_bytes(LEAF, tag_is_u8) + u32_bytes(0) + content) by {
        assert(b0 =~= pre + tag_bytes(LEAF, tag_is_u8) + u32_bytes(0) + content);
    }
    match size_fix.finish(buf) {
        Err(e) => {
            assert(false);
            Err(e)
        },
        Ok(size) => {
            proof {
                lemma_shield_leaf_assembly(pre, tag_bytes(LEAF, tag_is_u8), content, size, b0, buf@);
                assert(tag_bytes(LEAF, tag_is_u8) + u32_bytes(size) + content =~= shield_leaf_bytes(
                    bbox,
                    poly_list@,
                    tag_is_u8,
                ));
            }
            Ok(())
        },
    }
}

/// The head of a split with three placeholders: size, front, back.
fn write_shield_split_header(buf: &mut Vec<u8>, bbox: BoundingBox, tag_is_u8: bool) -> (r: (
    Fixup,
    Fixup,
    Fixup,
))
    ensures
        final(buf)@ == old(buf)@ + shield_split_header(bbox, 0, 0, 0, tag_is_u8),
        final(buf)@.len() == old(buf)@.len() + shield_split_header_len(tag_is_u8),
        r.0.base() == old(buf)@.len() && r.1.base() == old(buf)@.len() && r.2.base() == old(
            buf,
        )@.len(),
        r.0.location() == old(buf)@.len() + shield_split_header_len(tag_is_u8) - 36,
        r.1.location() == old(buf)@.len() + shield_split_header_len(tag_is_u8) - 8,
        r.2.location() == old(buf)@.len() + shield_split_header_len(tag_is_u8) - 4,
{
    reveal(shield_split_header);
    let base = buf.len();
    write_chunk_type(buf, SPLIT, tag_is_u8);
    let size = Fixup::new(buf, base);
    write_bbox(buf, bbox);
    let front = Fixup::new(buf, base);
    let back = Fixup::new(buf, base);
    assert(buf@ =~= old(buf)@ + shield_split_header(bbox, 0, 0, 0, tag_is_u8));
    (size, front, back)
}

/// The header with one of its three fields overwritten.
proof fn lemma_patch_shield_header(
    pre: Seq<u8>,
    bbox: BoundingBox,
    size: u32,
    front: u32,
    back: u32,
    t: bool,
    rest: Seq<u8>,
    n: u32,
)
    ensures
        size == 0 ==> patched(
            pre + shield_split_header(bbox, size, front, back, t) + rest,
            pre.len() + shield_split_header_len(t) - 36,
            n,
        ) == pre + shield_split_header(bbox, n, front, back, t) + rest,
        front == 0 ==> patched(
            pre + shield_split_header(bbox, size, front, back, t) + rest,
            pre.len() + shield_split_header_len(t) - 8,
            n,
        ) == pre + shield_split_header(bbox, size, n, back, t) + rest,
        back == 0 ==> patched(
            pre + shield_split_header(bbox, size, front, back, t) + rest,
            pre.len() + shield_split_header_len(t) - 4,
            n,
        ) == pre + shield_split_header(bbox, size, front, n, t) + rest,
        shield_split_header(bbox, size, front, back, t).len() == shield_split_header_len(t),
{
    reveal(patched);
    reveal(shield_split_header);
    let s = pre + shield_split_header(bbox, size, front, back, t) + rest;
    let h = pre.len() + shield_split_header_len(t);
    if size == 0 {
        assert(patched(s, h - 36, n) =~= pre + shield_split_header(bbox, n, front, back, t) + rest);
    }
    if front == 0 {
        assert(patched(s, h - 8, n) =~= pre + shield_split_header(bbox, size, n, back, t) + rest);
    }
    if back == 0 {
        assert(patched(s, h - 4, n) =~= pre + shield_split_header(bbox, size, front, n, t) + rest);
    }
}

fn write_shield_split(buf: &mut Vec<u8>, node: &ShieldNode, tag_is_u8: bool) -> (r: Result<
    (),
    EncodeError,
>)
    requires
        node.deep_view() is Split,
    ensures
        r is Ok <==> shield_node_encodable(node.deep_view(), tag_is_u8),
        r is Ok ==> final(buf)@ == old(buf)@ + shield_node_bytes(node.deep_view(), tag_is_u8),
    decreases node, 0nat,
{
    match node {
        ShieldNode::Split { bbox, front, back } => {
            let ghost fv = shield_view(**front);
            let ghost bv = shield_view(**back);
            let ghost pre = old(buf)@;
            let ghost fb = shield_node_bytes(fv, tag_is_u8);
            let ghost bb = shield_node_bytes(bv, tag_is_u8);
            let ghost h = shield_split_header_len(tag_is_u8);
            assert(node.deep_view()->Split_front == Box::new(fv));
            assert(node.deep_view()->Split_back == Box::new(bv));
            let (size_fix, front_fix, back_fix) = write_shield_split_header(buf, *bbox, tag_is_u8);
            let ghost b0 = buf@;
            assert(b0 == pre + shield_split_header(*bbox, 0, 0, 0, tag_is_u8) + Seq::<u8>::empty())
                by {
                assert(b0 =~= pre + shield_split_header(*bbox, 0, 0, 0, tag_is_u8) + Seq::<
                    u8,
                >::empty());
            }
            let fo = match front_fix.finish(buf) {
                Err(e) => {
                    assert(false);
                    return Err(e);
                },
                Ok(o) => o,
            };
            let ghost b0p = buf@;
            match write_shield_node(buf, front, tag_is_u8) {
                Err(e) => {
                    return Err(e);
                },
                Ok(()) => {},
            }
            let ghost b1 = buf@;
            assert(b1 == pre + shield_split_header(*bbox, 0, fo, 0, tag_is_u8) + fb) by {
                lemma_patch_shield_header(pre, *bbox, 0, 0, 0, tag_is_u8, Seq::empty(), fo);
                assert(b1 == b0p + fb);
                assert(pre + shield_split_header(*bbox, 0, fo, 0, tag_is_u8) + Seq::<u8>::empty()
                    + fb =~= pre + shield_split_header(*bbox, 0, fo, 0, tag_is_u8) + fb);
            }
            assert(b1.len() == pre.len() + h + fb.len()) by {
                lemma_patch_shield_header(pre, *bbox, 0, fo, 0, tag_is_u8, Seq::empty(), 0);
            }
            let bo = match back_fix.finish(buf) {
                Err(e) => {
                    return Err(e);
                },
                Ok(o) => o,
            };
            let ghost b1p = buf@;
            match write_shield_node(buf, back, tag_is_u8) {
                Err(e) => {
                    return Err(e);
                },
                Ok(()) => {},
            }
            let ghost b2 = buf@;
            assert(b2 == pre + shield_split_header(*bbox, 0, fo, bo, tag_is_u8) + (fb + bb)) by {
                lemma_patch_shield_header(pre, *bbox, 0, fo, 0, tag_is_u8, fb, bo);
                assert(b2 == b1p + bb);
                assert(pre + shield_split_header(*bbox, 0, fo, bo, tag_is_u8) + fb + bb =~= pre
                    + shield_split_header(*bbox, 0, fo, bo, tag_is_u8) + (fb + bb));
            }
            assert(b2.len() - pre.len() == h + fb.len() + bb.len()) by {
                lemma_patch_shield_header(pre, *bbox, 0, fo, bo, tag_is_u8, fb + bb, 0);
            }
            match size_fix.finish(buf) {
                Err(e) => {
                    return Err(e);
                },
                Ok(_) => {},
            }
            assert(buf@ == pre + shield_split_bytes(*bbox, fb, bb, tag_is_u8)) by {
                let total = (h + fb.len() + bb.len()) as u32;
                lemma_patch_shield_header(pre, *bbox, 0, fo, bo, tag_is_u8, fb + bb, total);
                assert(pre + shield_split_header(*bbox, total, fo, bo, tag_is_u8) + (fb + bb) =~= pre
                    + (shield_split_header(*bbox, total, fo, bo, tag_is_u8) + fb + bb));
            }
            Ok(())
        },
        _ => Ok(()),
    }
}

/// Appends the node and all below it.
pub fn write_shield_node(buf: &mut Vec<u8>, shield_node: &ShieldNode, chunk_type_is_u8: bool) -> (r:
    Result<(), EncodeError>)
    ensures
        r is Ok <==> shield_node_encodable(shield_node.deep_view(), chunk_type_is_u8),
        r is Ok ==> final(buf)@ == old(buf)@ + shield_node_bytes(
            shield_node.deep_view(),
            chunk_type_is_u8,
        ),
    decreases shield_node, 1nat,
{
    match shield_node {
        ShieldNode::Split { .. } => write_shield_split(buf, shield_node, chunk_type_is_u8),
        ShieldNode::Leaf { bbox, poly_list } => write_shield_leaf(
            buf,
            *bbox,
            poly_list,
            chunk_type_is_u8,
        ),
    }
}

} // verus!
