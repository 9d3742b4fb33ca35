//! Handles. Every cross-reference of a model is an index, never an address.

use vstd::prelude::*;
use crate::bytes::{lemma_u32_stands, read_u32, spec_u32, u32_bytes, write_u32, Parsed, Record};
use crate::error::{DecodeError, EncodeError};
use crate::version::Version;

verus! {

/// Names a subobject: its slot in the subobject table.
#[derive(Clone, Copy, PartialEq, Eq, Debug, Hash, Structural)]
pub struct ObjectId(pub u32);

impl View for ObjectId {
    type V = ObjectId;

    open spec fn view(&self) -> ObjectId {
        *self
    }
}

impl DeepView for ObjectId {
    type V = ObjectId;

    open spec fn deep_view(&self) -> ObjectId {
        *self
    }
}

/// In the format a handle is its number, in four bytes.
impl Record for ObjectId {
    open spec fn parse(s: Seq<u8>, pos: int, v: Version) -> Parsed<ObjectId> {
        match spec_u32(s, pos) {
            Err(e) => Err(e),
            Ok((n, p)) => Ok((ObjectId(n), p)),
        }
    }

    open spec fn bytes(m: ObjectId, v: Version) -> Seq<u8> {
        u32_bytes(m.0)
    }

    open spec fn encodable(m: ObjectId, v: Version) -> bool {
        true
    }

    open spec fn faithful(m: ObjectId, v: Version) -> bool {
        true
    }

    proof fn lemma_roundtrip(m: ObjectId, v: Version, s: Seq<u8>, pos: int) {
        lemma_u32_stands(s, pos, m.0);
    }

    fn read(buf: &[u8], pos: usize, v: Version) -> (r: Result<(ObjectId, usize), DecodeError>) {
        let (n, p) = read_u32(buf, pos)?;
        Ok((ObjectId(n), p))
    }

    fn write_to(&self, w: &mut Vec<u8>, v: Version) -> (r: Result<(), EncodeError>) {
        write_u32(w, self.0);
        Ok(())
    }
}

/// Names a texture: its place in the texture list.
#[derive(Clone, Copy, PartialEq, Eq, Debug, Hash, Structural)]
pub struct TextureId(pub u32);

impl View for TextureId {
    type V = TextureId;

    open spec fn view(&self) -> TextureId {
        *self
    }
}

impl DeepView for TextureId {
    type V = TextureId;

    open spec fn deep_view(&self) -> TextureId {
        *self
    }
}

/// In the format a handle is its number, in four bytes.
impl Record for TextureId {
    open spec fn parse(s: Seq<u8>, pos: int, v: Version) -> Parsed<TextureId> {
        match spec_u32(s, pos) {
            Err(e) => Err(e),
            Ok((n, p)) => Ok((TextureId(n), p)),
        }
    }

    open spec fn bytes(m: TextureId, v: Version) -> Seq<u8> {
        u32_bytes(m.0)
    }

    open spec fn encodable(m: TextureId, v: Version) -> bool {
        true
    }

    open spec fn faithful(m: TextureId, v: Version) -> bool {
        true
    }

    proof fn lemma_roundtrip(m: TextureId, v: Version, s: Seq<u8>, pos: int) {
        lemma_u32_stands(s, pos, m.0);
    }

    fn read(buf: &[u8], pos: usize, v: Version) -> (r: Result<(TextureId, usize), DecodeError>) {
        let (n, p) = read_u32(buf, pos)?;
        Ok((TextureId(n), p))
    }

    fn write_to(&self, w: &mut Vec<u8>, v: Version) -> (r: Result<(), EncodeError>) {
        write_u32(w, self.0);
        Ok(())
    }
}

/// Names a vertex: its place in a vertex pool.
#[derive(Clone, Copy, PartialEq, Eq, Debug, Hash, Structural)]
pub struct VertexId(pub u32);

impl View for VertexId {
    type V = VertexId;

    open spec fn view(&self) -> VertexId {
        *self
    }
}

impl DeepView for VertexId {
    type V = VertexId;

    open spec fn deep_view(&self) -> VertexId {
        *self
    }
}

/// In the format a handle is its number, in four bytes.
impl Record for VertexId {
    open spec fn parse(s: Seq<u8>, pos: int, v: Version) -> Parsed<VertexId> {
        match spec_u32(s, pos) {
            Err(e) => Err(e),
            Ok((n, p)) => Ok((VertexId(n), p)),
        }
    }

    open spec fn bytes(m: VertexId, v: Version) -> Seq<u8> {
        u32_bytes(m.0)
    }

    open spec fn encodable(m: VertexId, v: Version) -> bool {
        true
    }

    open spec fn faithful(m: VertexId, v: Version) -> bool {
        true
    }

    proof fn lemma_roundtrip(m: VertexId, v: Version, s: Seq<u8>, pos: int) {
        lemma_u32_stands(s, pos, m.0);
    }

    fn read(buf: &[u8], pos: usize, v: Version) -> (r: Result<(VertexId, usize), DecodeError>) {
        let (n, p) = read_u32(buf, pos)?;
        Ok((VertexId(n), p))
    }

    fn write_to(&self, w: &mut Vec<u8>, v: Version) -> (r: Result<(), EncodeError>) {
        write_u32(w, self.0);
        Ok(())
    }
}

/// Names a normal: its place in a normal pool.
#[derive(Clone, Copy, PartialEq, Eq, Debug, Hash, Structural)]
pub struct NormalId(pub u32);

impl View for NormalId {
    type V = NormalId;

    open spec fn view(&self) -> NormalId {
        *self
    }
}

impl DeepView for NormalId {
    type V = NormalId;

    open spec fn deep_view(&self) -> NormalId {
        *self
    }
}

/// In the format a handle is its number, in four bytes.
impl Record for NormalId {
    open spec fn parse(s: Seq<u8>, pos: int, v: Version) -> Parsed<NormalId> {
        match spec_u32(s, pos) {
            Err(e) => Err(e),
            Ok((n, p)) => Ok((NormalId(n), p)),
        }
    }

    open spec fn bytes(m: NormalId, v: Version) -> Seq<u8> {
        u32_bytes(m.0)
    }

    open spec fn encodable(m: NormalId, v: Version) -> bool {
        true
    }

    open spec fn faithful(m: NormalId, v: Version) -> bool {
        true
    }

    proof fn lemma_roundtrip(m: NormalId, v: Version, s: Seq<u8>, pos: int) {
        lemma_u32_stands(s, pos, m.0);
    }

    fn read(buf: &[u8], pos: usize, v: Version) -> (r: Result<(NormalId, usize), DecodeError>) {
        let (n, p) = read_u32(buf, pos)?;
        Ok((NormalId(n), p))
    }

    fn write_to(&self, w: &mut Vec<u8>, v: Version) -> (r: Result<(), EncodeError>) {
        write_u32(w, self.0);
        Ok(())
    }
}

/// Names a path: its place in the path list.
#[derive(Clone, Copy, PartialEq, Eq, Debug, Hash, Structural)]
pub struct PathId(pub u32);

impl View for PathId {
    type V = PathId;

    open spec fn view(&self) -> PathId {
        *self
    }
}

impl DeepView for PathId {
    type V = PathId;

    open spec fn deep_view(&self) -> PathId {
        *self
    }
}

/// In the format a handle is its number, in four bytes.
impl Record for PathId {
    open spec fn parse(s: Seq<u8>, pos: int, v: Version) -> Parsed<PathId> {
        match spec_u32(s, pos) {
            Err(e) => Err(e),
            Ok((n, p)) => Ok((PathId(n), p)),
        }
    }

    open spec fn bytes(m: PathId, v: Version) -> Seq<u8> {
        u32_bytes(m.0)
    }

    open spec fn encodable(m: PathId, v: Version) -> bool {
        true
    }

    open spec fn faithful(m: PathId, v: Version) -> bool {
        true
    }

    proof fn lemma_roundtrip(m: PathId, v: Version, s: Seq<u8>, pos: int) {
        lemma_u32_stands(s, pos, m.0);
    }

    fn read(buf: &[u8], pos: usize, v: Version) -> (r: Result<(PathId, usize), DecodeError>) {
        let (n, p) = read_u32(buf, pos)?;
        Ok((PathId(n), p))
    }

    fn write_to(&self, w: &mut Vec<u8>, v: Version) -> (r: Result<(), EncodeError>) {
        write_u32(w, self.0);
        Ok(())
    }
}

/// Names a shield polygon: its place in the shield mesh.
#[derive(Clone, Copy, PartialEq, Eq, Debug, Hash, Structural)]
pub struct PolygonId(pub u32);

impl View for PolygonId {
    type V = PolygonId;

    open spec fn view(&self) -> PolygonId {
        *self
    }
}

impl DeepView for PolygonId {
    type V = PolygonId;

    open spec fn deep_view(&self) -> PolygonId {
        *self
    }
}

/// In the format a handle is its number, in four bytes.
impl Record for PolygonId {
    open spec fn parse(s: Seq<u8>, pos: int, v: Version) -> Parsed<PolygonId> {
        match spec_u32(s, pos) {
            Err(e) => Err(e),
            Ok((n, p)) => Ok((PolygonId(n), p)),
        }
    }

    open spec fn bytes(m: PolygonId, v: Version) -> Seq<u8> {
        u32_bytes(m.0)
    }

    open spec fn encodable(m: PolygonId, v: Version) -> bool {
        true
    }

    open spec fn faithful(m: PolygonId, v: Version) -> bool {
        true
    }

    proof fn lemma_roundtrip(m: PolygonId, v: Version, s: Seq<u8>, pos: int) {
        lemma_u32_stands(s, pos, m.0);
    }

    fn read(buf: &[u8], pos: usize, v: Version) -> (r: Result<(PolygonId, usize), DecodeError>) {
        let (n, p) = read_u32(buf, pos)?;
        Ok((PolygonId(n), p))
    }

    fn write_to(&self, w: &mut Vec<u8>, v: Version) -> (r: Result<(), EncodeError>) {
        write_u32(w, self.0);
        Ok(())
    }
}

impl TextureId {
    /// The handle that marks a polygon as untextured.
    pub open spec fn spec_untextured() -> TextureId {
        TextureId(0xffff_ffff)
    }

    #[verifier::when_used_as_spec(spec_untextured)]
    pub fn untextured() -> (t: TextureId)
        ensures
            t == TextureId::spec_untextured(),
    {
        TextureId(0xffff_ffff)
    }
}

} // verus!
