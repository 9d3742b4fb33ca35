//! Decoding the tree of a subobject from its buffer.
//!
//! The buffer opens with the pools chunk; the tree follows it. A chunk is
//! a tag, a size that counts from the chunk's start, and a body. A split
//! names its children by their distance from its own start; distance zero
//! stands for an empty branch.

use vstd::prelude::*;
use crate::bsp::{BspData, BspNode, PolyVertex, Polygon, SpecBspData, SpecBspNode, SpecPolygon};
use crate::bsp_build::{
    classifier_ok, recalculate, side_of, spec_rebuild, spec_recalculate_bboxes, Side,
};
use crate::bytes::{
    decoded, has_bytes, le_u16, le_u32, parsed, read_list_n, read_u16, read_u32, read_u8,
    spec_list_n, spec_u32, spec_u8, Parsed,
};
use crate::error::{DecodeError, Violation};
use crate::geom::{read_bbox, read_vec3d, spec_bbox, spec_vec3d, BoundingBox, Vec3d};
use crate::ids::{NormalId, TextureId, VertexId};
use crate::version::Version;

verus! {

/// Ends a run of polygons; stands for an empty tree.
pub const ENDOFBRANCH: u32 = 0;

/// The pools chunk.
pub const DEFFPOINTS: u32 = 1;

/// An untextured polygon with narrow indices.
pub const FLATPOLY: u32 = 2;

/// A textured polygon with narrow indices.
pub const TMAPPOLY: u32 = 3;

/// A split that carries unused plane fields.
pub const SORTNORM: u32 = 4;

/// The box that opens a run of polygons.
pub const BOUNDBOX: u32 = 5;

/// A leaf: a box and a textured polygon with wide indices.
pub const TMAPPOLY2: u32 = 6;

/// A split.
pub const SORTNORM2: u32 = 7;

/// The head of a chunk at `start`: its tag, where its body begins, and
/// where the chunk ends. The tag is one byte or four. A chunk that ends
/// beyond the buffer is refused.
pub open spec fn spec_chunk_header(s: Seq<u8>, start: int, tag_is_u8: bool) -> Result<
    (u32, int, int),
    DecodeError,
> {
    let tag: Parsed<u32> = if tag_is_u8 {
        match spec_u8(s, start) {
            Err(e) => Err(e),
            Ok((t, p)) => Ok((t as u32, p)),
        }
    } else {
        spec_u32(s, start)
    };
    match tag {
        Err(e) => Err(e),
        Ok((t, p)) => match spec_u32(s, p) {
            Err(e) => Err(e),
            Ok((size, body)) => if start + size <= s.len() {
                Ok((t, body, start + size))
            } else {
                Err(DecodeError::TruncatedChunk)
            },
        },
    }
}

/// An executable header agrees with the grammar's.
pub open spec fn header_agrees(
    r: Result<(u32, usize, usize), DecodeError>,
    g: Result<(u32, int, int), DecodeError>,
) -> bool {
    match r {
        Ok((t, b, n)) => g == Ok::<(u32, int, int), DecodeError>((t, b as int, n as int)),
        Err(e) => g == Err::<(u32, int, int), DecodeError>(e),
    }
}

/// Reads the head of the chunk at `start`: its tag, where its body
/// begins, and where the chunk ends.
pub fn parse_chunk_header(buf: &[u8], start: usize, chunk_type_is_u8: bool) -> (r: Result<
    (u32, usize, usize),
    DecodeError,
>)
    ensures
        header_agrees(r, spec_chunk_header(buf@, start as int, chunk_type_is_u8)),
{
    let (tag, p) = if chunk_type_is_u8 {
        let (t, p) = read_u8(buf, start)?;
        (t as u32, p)
    } else {
        read_u32(buf, start)?
    };
    let (size, body) = read_u32(buf, p)?;
    if size as usize > buf.len() - start {
        return Err(DecodeError::TruncatedChunk);
    }
    Ok((tag, body, start + size as usize))
}

/// How the corners of a polygon are laid out.
#[derive(Clone, Copy, PartialEq, Eq, Debug, Structural)]
pub enum VertexLayout {
    /// Two-byte indices and texture coordinates.
    Narrow,
    /// Two-byte indices alone.
    Flat,
    /// Four-byte indices and texture coordinates.
    Wide,
}

impl VertexLayout {
    /// The bytes one corner takes.
    pub open spec fn width(self) -> int {
        match self {
            VertexLayout::Narrow => 12,
            VertexLayout::Flat => 4,
            VertexLayout::Wide => 16,
        }
    }
}

/// One corner.
pub open spec fn spec_poly_vertex(s: Seq<u8>, pos: int, layout: VertexLayout) -> Parsed<PolyVertex> {
    if !has_bytes(s, pos, layout.width()) {
        Err(DecodeError::TruncatedChunk)
    } else {
        match layout {
            VertexLayout::Narrow => Ok(
                (
                    PolyVertex {
                        vertex_id: VertexId(le_u16(s.subrange(pos, pos + 2)) as u32),
                        normal_id: NormalId(le_u16(s.subrange(pos + 2, pos + 4)) as u32),
                        u: le_u32(s.subrange(pos + 4, pos + 8)),
                        v: le_u32(s.subrange(pos + 8, pos + 12)),
                    },
                    pos + 12,
                ),
            ),
            VertexLayout::Flat => Ok(
                (
                    PolyVertex {
                        vertex_id: VertexId(le_u16(s.subrange(pos, pos + 2)) as u32),
                        normal_id: NormalId(le_u16(s.subrange(pos + 2, pos + 4)) as u32),
                        u: 0,
                        v: 0,
                    },
                    pos + 4,
                ),
            ),
            VertexLayout::Wide => Ok(
                (
                    PolyVertex {
                        vertex_id: VertexId(le_u32(s.subrange(pos, pos + 4))),
                        normal_id: NormalId(le_u32(s.subrange(pos + 4, pos + 8))),
                        u: le_u32(s.subrange(pos + 8, pos + 12)),
                        v: le_u32(s.subrange(pos + 12, pos + 16)),
                    },
                    pos + 16,
                ),
            ),
        }
    }
}

/// `n` corners, one after the other.
pub open spec fn spec_poly_verts(s: Seq<u8>, pos: int, n: nat, layout: VertexLayout) -> Parsed<
    Seq<PolyVertex>,
>
    decreases n,
{
    if n == 0 {
        Ok((Seq::empty(), pos))
    } else {
        match spec_poly_verts(s, pos, (n - 1) as nat, layout) {
            Err(e) => Err(e),
            Ok((xs, p)) => match spec_poly_vertex(s, p, layout) {
                Err(e) => Err(e),
                Ok((x, q)) => Ok((xs.push(x), q)),
            },
        }
    }
}

proof fn lemma_poly_verts_error(s: Seq<u8>, pos: int, k: nat, n: nat, layout: VertexLayout)
    requires
        k <= n,
        spec_poly_verts(s, pos, k, layout) is Err,
    ensures
        spec_poly_verts(s, pos, n, layout) == spec_poly_verts(s, pos, k, layout),
    decreases n,
{
    if k < n {
        lemma_poly_verts_error(s, pos, k, (n - 1) as nat, layout);
    }
}

fn read_poly_vertex(buf: &[u8], pos: usize, layout: VertexLayout) -> (r: Result<
    (PolyVertex, usize),
    DecodeError,
>)
    ensures
        parsed(r, spec_poly_vertex(buf@, pos as int, layout)),
{
    match layout {
        VertexLayout::Narrow => {
            let (a, p) = read_u16(buf, pos)?;
            let (b, p) = read_u16(buf, p)?;
            let (u, p) = read_u32(buf, p)?;
            let (v, p) = read_u32(buf, p)?;
            Ok((PolyVertex { vertex_id: VertexId(a as u32), normal_id: NormalId(b as u32), u, v }, p))
        },
        VertexLayout::Flat => {
            let (a, p) = read_u16(buf, pos)?;
            let (b, p) = read_u16(buf, p)?;
            Ok(
                (
                    PolyVertex { vertex_id: VertexId(a as u32), normal_id: NormalId(b as u32), u: 0, v: 0 },
                    p,
                ),
            )
        },
        VertexLayout::Wide => {
            let (a, p) = read_u32(buf, pos)?;
            let (b, p) = read_u32(buf, p)?;
            let (u, p) = read_u32(buf, p)?;
            let (v, p) = read_u32(buf, p)?;
            Ok((PolyVertex { vertex_id: VertexId(a), normal_id: NormalId(b), u, v }, p))
        },
    }
}

fn read_poly_verts(buf: &[u8], pos: usize, n: usize, layout: VertexLayout) -> (r: Result<
    (Vec<PolyVertex>, usize),
    DecodeError,
>)
    ensures
        parsed(r, spec_poly_verts(buf@, pos as int, n as nat, layout)),
{
    let mut out: Vec<PolyVertex> = Vec::new();
    let mut p = pos;
    let mut i: usize = 0;
    assert(out.deep_view() =~= Seq::<PolyVertex>::empty());
    while i < n
        invariant
            i <= n,
            spec_poly_verts(buf@, pos as int, i as nat, layout) == Ok::<
                (Seq<PolyVertex>, int),
                DecodeError,
            >((out.deep_view(), p as int)),
        decreases n - i,
    {
        let ghost before = out.deep_view();
        match read_poly_vertex(buf, p, layout) {
            Err(e) => {
                proof {
                    lemma_poly_verts_error(buf@, pos as int, (i + 1) as nat, n as nat, layout);
                }
                return Err(e);
            },
            Ok((x, q)) => {
                out.push(x);
                p = q;
                i += 1;
                assert(out.deep_view() =~= before.push(x));
            },
        }
    }
    Ok((out, p))
}

/// The body of a textured polygon with narrow indices: normal, an unused
/// centre and radius, the number of corners, the texture, the corners.
pub open spec fn spec_tmappoly(s: Seq<u8>, body: int) -> Result<SpecPolygon, DecodeError> {
    if !has_bytes(s, body, 36) {
        Err(DecodeError::TruncatedChunk)
    } else {
        let n = le_u32(s.subrange(body + 28, body + 32));
        match spec_poly_verts(s, body + 36, n as nat, VertexLayout::Narrow) {
            Err(e) => Err(e),
            Ok((verts, _)) => Ok(
                SpecPolygon {
                    normal: spec_vec3d(s, body)->Ok_0.0,
                    texture: TextureId(le_u32(s.subrange(body + 32, body + 36))),
                    verts,
                },
            ),
        }
    }
}

/// The body of an untextured polygon: normal, an unused centre and
/// radius, the number of corners, one unused byte, the corners.
pub open spec fn spec_flatpoly(s: Seq<u8>, body: int) -> Result<SpecPolygon, DecodeError> {
    if !has_bytes(s, body, 33) {
        Err(DecodeError::TruncatedChunk)
    } else {
        let n = le_u32(s.subrange(body + 28, body + 32));
        match spec_poly_verts(s, body + 33, n as nat, VertexLayout::Flat) {
            Err(e) => Err(e),
            Ok((verts, _)) => Ok(
                SpecPolygon {
                    normal: spec_vec3d(s, body)->Ok_0.0,
                    texture: TextureId::spec_untextured(),
                    verts,
                },
            ),
        }
    }
}

/// The body of a leaf: its box, then normal, texture, the number of
/// corners, and the corners with wide indices.
pub open spec fn spec_tmappoly2(s: Seq<u8>, body: int) -> Result<SpecBspNode, DecodeError> {
    if !has_bytes(s, body, 44) {
        Err(DecodeError::TruncatedChunk)
    } else {
        let n = le_u32(s.subrange(body + 40, body + 44));
        match spec_poly_verts(s, body + 44, n as nat, VertexLayout::Wide) {
            Err(e) => Err(e),
            Ok((verts, _)) => Ok(
                SpecBspNode::Leaf {
                    bbox: spec_bbox(s, body)->Ok_0.0,
                    poly: SpecPolygon {
                        normal: spec_vec3d(s, body + 24)->Ok_0.0,
                        texture: TextureId(le_u32(s.subrange(body + 36, body + 40))),
                        verts,
                    },
                },
            ),
        }
    }
}

fn read_tmappoly(buf: &[u8], body: usize) -> (r: Result<Polygon, DecodeError>)
    ensures
        decoded(r, spec_tmappoly(buf@, body as int)),
{
    let (normal, p) = read_vec3d(buf, body)?;
    let (_center, p) = read_vec3d(buf, p)?;
    let (_radius, p) = read_u32(buf, p)?;
    let (n, p) = read_u32(buf, p)?;
    let (texture, p) = read_u32(buf, p)?;
    let (verts, _) = read_poly_verts(buf, p, n as usize, VertexLayout::Narrow)?;
    assert(verts.deep_view() =~= verts@);
    Ok(Polygon { normal, texture: TextureId(texture), verts })
}

fn read_flatpoly(buf: &[u8], body: usize) -> (r: Result<Polygon, DecodeError>)
    ensures
        decoded(r, spec_flatpoly(buf@, body as int)),
{
    let (normal, p) = read_vec3d(buf, body)?;
    let (_center, p) = read_vec3d(buf, p)?;
    let (_radius, p) = read_u32(buf, p)?;
    let (n, p) = read_u32(buf, p)?;
    let (_pad, p) = read_u8(buf, p)?;
    let (verts, _) = read_poly_verts(buf, p, n as usize, VertexLayout::Flat)?;
    assert(verts.deep_view() =~= verts@);
    Ok(Polygon { normal, texture: TextureId::untextured(), verts })
}

fn read_tmappoly2(buf: &[u8], body: usize) -> (r: Result<BspNode, DecodeError>)
    ensures
        decoded(r, spec_tmappoly2(buf@, body as int)),
{
    let (bbox, p) = read_bbox(buf, body)?;
    let (normal, p) = read_vec3d(buf, p)?;
    let (texture, p) = read_u32(buf, p)?;
    let (n, p) = read_u32(buf, p)?;
    let (verts, _) = read_poly_verts(buf, p, n as usize, VertexLayout::Wide)?;
    assert(verts.deep_view() =~= verts@);
    Ok(BspNode::Leaf { bbox, poly: Polygon { normal, texture: TextureId(texture), verts } })
}

/// A run of polygon chunks, up to the chunk that ends the branch. Each
/// polygon chunk has to end behind its own start.
pub open spec fn spec_poly_run(s: Seq<u8>, pos: int) -> Result<Seq<SpecPolygon>, DecodeError>
    decreases s.len() - pos,
{
    match spec_chunk_header(s, pos, false) {
        Err(e) => Err(e),
        Ok((tag, body, next)) => if tag == ENDOFBRANCH {
            Ok(Seq::empty())
        } else if tag == TMAPPOLY || tag == FLATPOLY {
            let poly = if tag == TMAPPOLY {
                spec_tmappoly(s, body)
            } else {
                spec_flatpoly(s, body)
            };
            match poly {
                Err(e) => Err(e),
                Ok(p) => if next <= pos {
                    Err(DecodeError::StructuralViolation(Violation::BadChunkSize))
                } else {
                    match spec_poly_run(s, next) {
                        Err(e) => Err(e),
                        Ok(rest) => Ok(seq![p] + rest),
                    }
                },
            }
        } else {
            Err(DecodeError::StructuralViolation(Violation::BadTreeTag))
        },
    }
}

/// What came before, followed by what a run yields.
pub open spec fn prepend(acc: Seq<SpecPolygon>, r: Result<Seq<SpecPolygon>, DecodeError>) -> Result<
    Seq<SpecPolygon>,
    DecodeError,
> {
    match r {
        Err(e) => Err(e),
        Ok(rest) => Ok(acc + rest),
    }
}

fn read_poly_run(buf: &[u8], pos: usize) -> (r: Result<Vec<Polygon>, DecodeError>)
    ensures
        decoded(r, spec_poly_run(buf@, pos as int)),
{
    let mut out: Vec<Polygon> = Vec::new();
    let mut cur = pos;
    assert(out.deep_view() =~= Seq::<SpecPolygon>::empty());
    assert(prepend(out.deep_view(), spec_poly_run(buf@, cur as int)) == spec_poly_run(
        buf@,
        pos as int,
    )) by {
        let r = spec_poly_run(buf@, cur as int);
        if r is Ok {
            assert(out.deep_view() + r->Ok_0 =~= r->Ok_0);
        }
    }
    loop
        invariant
            prepend(out.deep_view(), spec_poly_run(buf@, cur as int)) == spec_poly_run(
                buf@,
                pos as int,
            ),
        decreases buf@.len() - cur,
    {
        let ghost acc = out.deep_view();
        let (tag, body, next) = parse_chunk_header(buf, cur, false)?;
        if tag == ENDOFBRANCH {
            assert(acc + Seq::<SpecPolygon>::empty() =~= acc);
            return Ok(out);
        } else if tag == TMAPPOLY || tag == FLATPOLY {
            let poly = if tag == TMAPPOLY {
                read_tmappoly(buf, body)?
            } else {
                read_flatpoly(buf, body)?
            };
            if next <= cur {
                return Err(DecodeError::StructuralViolation(Violation::BadChunkSize));
            }
            proof {
                let rest = spec_poly_run(buf@, next as int);
                if rest is Ok {
                    assert(acc.push(poly.deep_view()) + rest->Ok_0 =~= acc + (seq![
                        poly.deep_view(),
                    ] + rest->Ok_0));
                }
            }
            out.push(poly);
            assert(out.deep_view() =~= acc.push(poly.deep_view()));
            cur = next;
        } else {
            return Err(DecodeError::StructuralViolation(Violation::BadTreeTag));
        }
    }
}

/// Where the child offsets of a split stand: at the start of the body,
/// or, in the legacy layout, behind an unused plane (a normal, a point and
/// one more field).
pub open spec fn spec_split_offsets_at(s: Seq<u8>, body: int, legacy: bool) -> Result<
    int,
    DecodeError,
> {
    if !legacy {
        Ok(body)
    } else if has_bytes(s, body, 28) {
        Ok(body + 28)
    } else {
        Err(DecodeError::TruncatedChunk)
    }
}

/// The box of a split, which stands behind the child offsets and, in the
/// legacy layout, three more unused fields. It is stored from `V20_00`
/// on; before, the box at the origin stands for it.
pub open spec fn spec_split_box(s: Seq<u8>, p2: int, legacy: bool, v: Version) -> Result<
    BoundingBox,
    DecodeError,
> {
    if legacy && !has_bytes(s, p2, 12) {
        Err(DecodeError::TruncatedChunk)
    } else if v.stores_split_boxes() {
        match spec_bbox(
            s,
            if legacy {
                p2 + 12
            } else {
                p2
            },
        ) {
            Err(e) => Err(e),
            Ok((bbox, _)) => Ok(bbox),
        }
    } else {
        Ok(BoundingBox::spec_zero())
    }
}

/// What a run of polygons under one box becomes: nothing, a leaf, or,
/// for more than one polygon, a tree of leaves built over them.
pub open spec fn spec_leaf_of_run(
    bbox: BoundingBox,
    polys: Seq<SpecPolygon>,
    verts: Seq<Vec3d>,
    side: Side,
) -> Result<SpecBspNode, DecodeError> {
    if polys.len() == 0 {
        Ok(SpecBspNode::Empty)
    } else if polys.len() == 1 {
        Ok(SpecBspNode::Leaf { bbox, poly: polys[0] })
    } else {
        spec_rebuild(verts, polys, side)
    }
}

/// The child that a split at `start` names by `offset`: nothing for
/// offset zero, else the node that far behind the split's start.
pub open spec fn spec_child(
    s: Seq<u8>,
    start: int,
    offset: u32,
    verts: Seq<Vec3d>,
    v: Version,
    side: Side,
) -> Result<SpecBspNode, DecodeError>
    decreases s.len() - start, 0nat,
{
    if offset == 0 {
        Ok(SpecBspNode::Empty)
    } else if start + offset > s.len() {
        Err(DecodeError::TruncatedChunk)
    } else {
        spec_bsp_node(s, start + offset, verts, v, side)
    }
}

/// The split at `start` whose body begins at `body`: the front offset and
/// the front child, the back offset and the back child, then the box.
pub open spec fn spec_split(
    s: Seq<u8>,
    start: int,
    body: int,
    legacy: bool,
    verts: Seq<Vec3d>,
    v: Version,
    side: Side,
) -> Result<SpecBspNode, DecodeError>
    decreases s.len() - start, 1nat,
{
    match spec_split_offsets_at(s, body, legacy) {
        Err(e) => Err(e),
        Ok(p0) => match spec_u32(s, p0) {
            Err(e) => Err(e),
            Ok((front_offset, p1)) => match spec_child(s, start, front_offset, verts, v, side) {
                Err(e) => Err(e),
                Ok(f) => match spec_u32(s, p1) {
                    Err(e) => Err(e),
                    Ok((back_offset, p2)) => match spec_child(s, start, back_offset, verts, v, side) {
                        Err(e) => Err(e),
                        Ok(b) => match spec_split_box(s, p2, legacy, v) {
                            Err(e) => Err(e),
                            Ok(bbox) => Ok(
                                SpecBspNode::Split { bbox, front: Box::new(f), back: Box::new(b) },
                            ),
                        },
                    },
                },
            },
        },
    }
}

/// The node at `start`.
pub open spec fn spec_bsp_node(s: Seq<u8>, start: int, verts: Seq<Vec3d>, v: Version, side: Side) -> Result<
    SpecBspNode,
    DecodeError,
>
    decreases s.len() - start, 2nat,
{
    match spec_chunk_header(s, start, false) {
        Err(e) => Err(e),
        Ok((tag, body, next)) => if tag == SORTNORM || tag == SORTNORM2 {
            spec_split(s, start, body, tag == SORTNORM, verts, v, side)
        } else if tag == BOUNDBOX {
            match spec_bbox(s, body) {
                Err(e) => Err(e),
                Ok((bbox, _)) => match spec_poly_run(s, next) {
                    Err(e) => Err(e),
                    Ok(polys) => spec_leaf_of_run(bbox, polys, verts, side),
                },
            }
        } else if tag == TMAPPOLY2 {
            spec_tmappoly2(s, body)
        } else if tag == ENDOFBRANCH {
            Ok(SpecBspNode::Empty)
        } else {
            Err(DecodeError::StructuralViolation(Violation::BadTreeTag))
        },
    }
}

fn split_offsets_at(buf: &[u8], body: usize, legacy: bool) -> (r: Result<usize, DecodeError>)
    ensures
        match r {
            Ok(p) => spec_split_offsets_at(buf@, body as int, legacy) == Ok::<int, DecodeError>(
                p as int,
            ),
            Err(e) => spec_split_offsets_at(buf@, body as int, legacy) == Err::<int, DecodeError>(e),
        },
{
    if legacy {
        let (_normal, q) = read_vec3d(buf, body)?;
        let (_point, q) = read_vec3d(buf, q)?;
        let (_reserved, q) = read_u32(buf, q)?;
        Ok(q)
    } else {
        Ok(body)
    }
}

fn read_split_box(buf: &[u8], p2: usize, legacy: bool, version: Version) -> (r: Result<
    BoundingBox,
    DecodeError,
>)
    ensures
        decoded(r, spec_split_box(buf@, p2 as int, legacy, version)),
{
    let mut p = p2;
    if legacy {
        let (_prelist, q) = read_u32(buf, p)?;
        let (_postlist, q) = read_u32(buf, q)?;
        let (_online, q) = read_u32(buf, q)?;
        p = q;
    }
    if version.stores_split_boxes() {
        let (b, _) = read_bbox(buf, p)?;
        Ok(b)
    } else {
        Ok(BoundingBox::zero())
    }
}

fn leaf_of_run<F: Fn(Vec3d, Vec3d, &Vec<Vec3d>) -> bool>(
    bbox: BoundingBox,
    polys: Vec<Polygon>,
    verts: &Vec<Vec3d>,
    in_front: &F,
) -> (r: Result<BspNode, DecodeError>)
    requires
        classifier_ok(in_front),
    ensures
        decoded(r, spec_leaf_of_run(bbox, polys.deep_view(), verts@, side_of(in_front))),
{
    let mut polys = polys;
    if polys.len() == 0 {
        Ok(BspNode::Empty)
    } else if polys.len() == 1 {
        let ghost pv = polys.deep_view();
        let poly = polys.pop().unwrap();
        assert(poly.deep_view() == pv[0]);
        Ok(BspNode::Leaf { bbox, poly })
    } else {
        recalculate(verts, polys, in_front)
    }
}

fn parse_child<F: Fn(Vec3d, Vec3d, &Vec<Vec3d>) -> bool>(
    buf: &[u8],
    start: usize,
    offset: u32,
    verts: &Vec<Vec3d>,
    version: Version,
    in_front: &F,
) -> (r: Result<BspNode, DecodeError>)
    requires
        classifier_ok(in_front),
        start <= buf@.len(),
    ensures
        decoded(r, spec_child(buf@, start as int, offset, verts@, version, side_of(in_front))),
    decreases buf@.len() - start, 0nat,
{
    if offset == 0 {
        return Ok(BspNode::Empty);
    }
    if offset as usize > buf.len() - start {
        return Err(DecodeError::TruncatedChunk);
    }
    parse_bsp_node(buf, start + offset as usize, verts, version, in_front)
}

fn parse_split<F: Fn(Vec3d, Vec3d, &Vec<Vec3d>) -> bool>(
    buf: &[u8],
    start: usize,
    body: usize,
    legacy: bool,
    verts: &Vec<Vec3d>,
    version: Version,
    in_front: &F,
) -> (r: Result<BspNode, DecodeError>)
    requires
        classifier_ok(in_front),
        start <= buf@.len(),
    ensures
        decoded(
            r,
            spec_split(buf@, start as int, body as int, legacy, verts@, version, side_of(in_front)),
        ),
    decreases buf@.len() - start, 1nat,
{
    let p0 = split_offsets_at(buf, body, legacy)?;
    let (front_offset, p1) = read_u32(buf, p0)?;
    let front = parse_child(buf, start, front_offset, verts, version, in_front)?;
    let (back_offset, p2) = read_u32(buf, p1)?;
    let back = parse_child(buf, start, back_offset, verts, version, in_front)?;
    let bbox = read_split_box(buf, p2, legacy, version)?;
    Ok(BspNode::Split { bbox, front: Box::new(front), back: Box::new(back) })
}

/// Decodes the node at `start` and all that it leads to.
pub fn parse_bsp_node<F: Fn(Vec3d, Vec3d, &Vec<Vec3d>) -> bool>(
    buf: &[u8],
    start: usize,
    verts: &Vec<Vec3d>,
    version: Version,
    in_front: &F,
) -> (r: Result<BspNode, DecodeError>)
    requires
        classifier_ok(in_front),
    ensures
        decoded(r, spec_bsp_node(buf@, start as int, verts@, version, side_of(in_front))),
    decreases buf@.len() - start, 2nat,
{
    let (tag, body, next) = parse_chunk_header(buf, start, false)?;
    if tag == SORTNORM || tag == SORTNORM2 {
        parse_split(buf, start, body, tag == SORTNORM, verts, version, in_front)
    } else if tag == BOUNDBOX {
        let (bbox, _) = read_bbox(buf, body)?;
        let polys = read_poly_run(buf, next)?;
        leaf_of_run(bbox, polys, verts, in_front)
    } else if tag == TMAPPOLY2 {
        read_tmappoly2(buf, body)
    } else if tag == ENDOFBRANCH {
        Ok(BspNode::Empty)
    } else {
        Err(DecodeError::StructuralViolation(Violation::BadTreeTag))
    }
}

/// The two pools: for each count a vertex, followed by that many normals.
#[verifier::opaque]
pub open spec fn spec_pools(s: Seq<u8>, counts: Seq<u8>, pos: int, v: Version) -> Parsed<
    (Seq<Vec3d>, Seq<Vec3d>),
>
    decreases counts.len(),
{
    if counts.len() == 0 {
        Ok(((Seq::empty(), Seq::empty()), pos))
    } else {
        match spec_pools(s, counts.drop_last(), pos, v) {
            Err(e) => Err(e),
            Ok(((vs, ns), p)) => match spec_vec3d(s, p) {
                Err(e) => Err(e),
                Ok((x, p1)) => match spec_list_n::<Vec3d>(s, p1, counts.last() as nat, v) {
                    Err(e) => Err(e),
                    Ok((more, p2)) => Ok(((vs.push(x), ns + more), p2)),
                },
            },
        }
    }
}

proof fn lemma_pools_error(s: Seq<u8>, counts: Seq<u8>, k: int, pos: int, v: Version)
    requires
        0 <= k <= counts.len(),
        spec_pools(s, counts.take(k), pos, v) is Err,
    ensures
        spec_pools(s, counts, pos, v) == spec_pools(s, counts.take(k), pos, v),
    decreases counts.len(),
{
    reveal(spec_pools);
    if k < counts.len() {
        assert(counts.drop_last().take(k) =~= counts.take(k));
        lemma_pools_error(s, counts.drop_last(), k, pos, v);
    } else {
        assert(counts.take(k) =~= counts);
    }
}

/// The buffer of a subobject: the pools chunk, then the tree.
#[verifier::opaque]
pub open spec fn spec_bsp_data(s: Seq<u8>, v: Version, side: Side) -> Result<SpecBspData, DecodeError> {
    match spec_chunk_header(s, 0, false) {
        Err(e) => Err(e),
        Ok((tag, body, next)) => if tag != DEFFPOINTS {
            Err(DecodeError::StructuralViolation(Violation::BadTreeTag))
        } else if !has_bytes(s, body, 12) {
            Err(DecodeError::TruncatedChunk)
        } else {
            let num_verts = le_u32(s.subrange(body, body + 4));
            let num_norms = le_u32(s.subrange(body + 4, body + 8));
            let offset = le_u32(s.subrange(body + 8, body + 12));
            if !has_bytes(s, body + 12, num_verts as int) || offset > s.len() {
                Err(DecodeError::TruncatedChunk)
            } else {
                let counts = s.subrange(body + 12, body + 12 + num_verts);
                match spec_pools(s, counts, offset as int, v) {
                    Err(e) => Err(e),
                    Ok(((verts, norms), _)) => if norms.len() != num_norms {
                        Err(DecodeError::StructuralViolation(Violation::NormalCountMismatch))
                    } else {
                        match spec_bsp_node(s, next, verts, v, side) {
                            Err(e) => Err(e),
                            Ok(tree) => if v.stores_split_boxes() {
                                Ok(SpecBspData { verts, norms, collision_tree: tree })
                            } else {
                                match spec_recalculate_bboxes(tree, verts) {
                                    Err(e) => Err(e),
                                    Ok(t) => Ok(SpecBspData { verts, norms, collision_tree: t }),
                                }
                            },
                        }
                    },
                }
            }
        },
    }
}

fn read_pools(buf: &[u8], counts_at: usize, num_verts: usize, pos: usize, version: Version) -> (r:
    Result<(Vec<Vec3d>, Vec<Vec3d>), DecodeError>)
    requires
        counts_at + num_verts <= buf@.len(),
    ensures
        match r {
            Ok((verts, norms)) => spec_pools(
                buf@,
                buf@.subrange(counts_at as int, counts_at + num_verts),
                pos as int,
                version,
            ) matches Ok(((vs, ns), _)) && vs == verts@ && ns == norms@,
            Err(e) => spec_pools(
                buf@,
                buf@.subrange(counts_at as int, counts_at + num_verts),
                pos as int,
                version,
            ) == Err::<((Seq<Vec3d>, Seq<Vec3d>), int), DecodeError>(e),
        },
{
    reveal(spec_pools);
    let ghost counts = buf@.subrange(counts_at as int, counts_at + num_verts);
    let mut verts: Vec<Vec3d> = Vec::new();
    let mut norms: Vec<Vec3d> = Vec::new();
    let mut p = pos;
    let mut i: usize = 0;
    let total = buf.len();
    assert(counts.take(0) =~= Seq::<u8>::empty());
    while i < num_verts
        invariant
            counts_at + num_verts <= buf@.len() == total,
            counts == buf@.subrange(counts_at as int, counts_at + num_verts),
            i <= num_verts,
            spec_pools(buf@, counts.take(i as int), pos as int, version) == Ok::<
                ((Seq<Vec3d>, Seq<Vec3d>), int),
                DecodeError,
            >(((verts@, norms@), p as int)),
        decreases num_verts - i,
    {
        proof {
            reveal(spec_pools);
            let t = counts.take(i + 1);
            assert(t.drop_last() =~= counts.take(i as int));
            assert(t.last() == buf@[counts_at + i]);
        }
        let count = buf[counts_at + i];
        let (x, p1) = match read_vec3d(buf, p) {
            Ok(k) => k,
            Err(e) => {
                proof {
                    lemma_pools_error(buf@, counts, i + 1, pos as int, version);
                }
                return Err(e);
            },
        };
        let (mut more, p2) = match read_list_n::<Vec3d>(buf, p1, count as usize, version) {
            Ok(k) => k,
            Err(e) => {
                proof {
                    lemma_pools_error(buf@, counts, i + 1, pos as int, version);
                }
                return Err(e);
            },
        };
        assert(more.deep_view() =~= more@);
        verts.push(x);
        norms.append(&mut more);
        p = p2;
        i += 1;
    }
    assert(counts.take(i as int) =~= counts);
    Ok((verts, norms))
}

/// Decodes the buffer of a subobject. Below `V20_00`, where splits store
/// no box, every box of the tree is recomputed from the polygons.
pub fn parse_bsp_data<F: Fn(Vec3d, Vec3d, &Vec<Vec3d>) -> bool>(
    buf: &[u8],
    version: Version,
    in_front: &F,
) -> (r: Result<BspData, DecodeError>)
    requires
        classifier_ok(in_front),
    ensures
        decoded(r, spec_bsp_data(buf@, version, side_of(in_front))),
{
    reveal(spec_bsp_data);
    let (tag, body, next) = parse_chunk_header(buf, 0, false)?;
    if tag != DEFFPOINTS {
        return Err(DecodeError::StructuralViolation(Violation::BadTreeTag));
    }
    let (num_verts, p) = read_u32(buf, body)?;
    let (num_norms, p) = read_u32(buf, p)?;
    let (offset, p) = read_u32(buf, p)?;
    if num_verts as usize > buf.len() - p || offset as usize > buf.len() {
        return Err(DecodeError::TruncatedChunk);
    }
    let (verts, norms) = read_pools(buf, p, num_verts as usize, offset as usize, version)?;
    if norms.len() != num_norms as usize {
        return Err(DecodeError::StructuralViolation(Violation::NormalCountMismatch));
    }
    let tree = parse_bsp_node(buf, next, &verts, version, in_front)?;
    let tree = if version.stores_split_boxes() {
        tree
    } else {
        tree.recalculate_bboxes(&verts)?
    };
    Ok(BspData { verts, norms, collision_tree: tree })
}

} // verus!
