//! Codec for the chunked binary model format: a byte-exact reader and writer
//! for the container, its version-gated chunks, and the two offset-addressed
//! partition trees embedded in it.
//!
//! Real numbers are carried as their IEEE-754 single-precision bit patterns
//! (`u32`), so that every value read is written back bit for bit. The codec
//! never computes with them. Where a decision needs arithmetic on real
//! numbers (on which side of a plane a polygon lies), the caller hands in
//! the function that makes it.
//!
//! Every reader follows a grammar, a `spec` function on the bytes, and
//! returns what the grammar says; every writer emits what its grammar
//! says. The modules whose names end in `_laws` prove what holds between
//! the two: what is written reads back.

pub mod version;
pub mod error;
pub mod bytes;
pub mod geom;
pub mod ids;
pub mod bsp;
pub mod bsp_build;
pub mod bsp_read;
pub mod bsp_write;
pub mod bsp_laws;
pub mod shield;
pub mod shield_laws;
pub mod mesh;
pub mod records;
pub mod header;
pub mod subobject;
pub mod model;
pub mod parse;
pub mod write;
pub mod order_laws;
pub mod model_laws;
pub mod file_laws;
