use vstd::prelude::*;

verus! {

/// The structural rules a file can break.
#[derive(Clone, Copy, PartialEq, Eq, Debug, Structural)]
pub enum Violation {
    /// A subobject names a parent whose slot is not filled yet.
    ParentOutOfOrder,
    /// The stream ended without an object header chunk, or a subobject
    /// chunk came before it.
    MissingHeader,
    /// A chunk that may appear once appeared again, or a subobject slot
    /// was filled twice.
    DuplicateChunk,
    /// A subobject slot is still empty after the last chunk.
    UnresolvedSubobject,
    /// A version-paired tag does not agree with the file's version.
    TagVersionMismatch,
    /// An object id does not address a slot of the subobject table.
    ObjectOutOfRange,
    /// A turret names a subobject whose slot is not filled yet.
    TurretOutOfOrder,
    /// A field holds a value outside the set the format allows.
    BadValue,
    /// A partition tree holds a chunk tag that cannot stand where it is.
    BadTreeTag,
    /// The per-vertex normal counts do not add up to the declared total.
    NormalCountMismatch,
    /// A polygon names a vertex outside the vertex pool.
    VertexOutOfRange,
    /// A tree chunk declares a size too small to hold its own header.
    BadChunkSize,
    /// A partition tree is present without its mesh.
    TreeWithoutMesh,
}

/// Why a byte stream was not decoded. Every one of them ends the decode;
/// no partial model is returned.
#[derive(Clone, Copy, PartialEq, Eq, Debug, Structural)]
pub enum DecodeError {
    /// The first four bytes are not the container's magic.
    MalformedMagic,
    /// The version number is not one of the known revisions.
    UnsupportedVersion,
    /// The source ended in the middle of a read.
    TruncatedChunk,
    /// The stream is well framed but breaks a structural rule.
    StructuralViolation(Violation),
}

/// Why a model was not encoded: a count, a size or an index does not fit
/// the field the target layout gives it.
#[derive(Clone, Copy, PartialEq, Eq, Debug, Structural)]
pub enum EncodeError {
    Unrepresentable,
}

} // verus!
