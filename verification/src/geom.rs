//! Points and boxes, as the format stores them.
//!
//! A coordinate is the bit pattern of an IEEE-754 single-precision number.
//! The codec never computes with coordinates; where it has to compare two
//! of them (to grow a bounding box) it goes by [`scalar_key`].

use vstd::prelude::*;
use crate::bytes::{has_bytes, le_u32, parsed, read_u32, u32_bytes, write_u32, Parsed, Record};
use crate::error::{DecodeError, EncodeError};
use crate::version::Version;

verus! {

/// The place of a coordinate on the number line: the magnitude bits, with
/// the sign bit as the sign. For any two numbers that are not NaN this
/// orders the patterns as the numbers are ordered, and gives both zeros
/// the same place. A NaN lies beyond the infinity of its sign.
pub open spec fn scalar_key(bits: u32) -> int {
    if bits >= 0x8000_0000 {
        -(bits - 0x8000_0000)
    } else {
        bits as int
    }
}

pub open spec fn scalar_min(a: u32, b: u32) -> u32 {
    if scalar_key(a) <= scalar_key(b) {
        a
    } else {
        b
    }
}

pub open spec fn scalar_max(a: u32, b: u32) -> u32 {
    if scalar_key(a) >= scalar_key(b) {
        a
    } else {
        b
    }
}

fn key_of(bits: u32) -> (k: i64)
    ensures
        k == scalar_key(bits),
{
    if bits >= 0x8000_0000 {
        -((bits - 0x8000_0000) as i64)
    } else {
        bits as i64
    }
}

/// Whether `a` is at most `b` on the number line.
pub fn scalar_le(a: u32, b: u32) -> (r: bool)
    ensures
        r == (scalar_key(a) <= scalar_key(b)),
{
    key_of(a) <= key_of(b)
}

fn min_of(a: u32, b: u32) -> (r: u32)
    ensures
        r == scalar_min(a, b),
{
    if scalar_le(a, b) {
        a
    } else {
        b
    }
}

fn max_of(a: u32, b: u32) -> (r: u32)
    ensures
        r == scalar_max(a, b),
{
    if scalar_le(b, a) {
        a
    } else {
        b
    }
}

/// A point or a direction.
#[derive(Clone, Copy, PartialEq, Eq, Debug, Hash, Structural)]
pub struct Vec3d {
    pub x: u32,
    pub y: u32,
    pub z: u32,
}

impl View for Vec3d {
    type V = Vec3d;

    open spec fn view(&self) -> Vec3d {
        *self
    }
}

impl DeepView for Vec3d {
    type V = Vec3d;

    open spec fn deep_view(&self) -> Vec3d {
        *self
    }
}

impl Vec3d {
    /// The origin: three positive zeros.
    pub open spec fn spec_zero() -> Vec3d {
        Vec3d { x: 0, y: 0, z: 0 }
    }

    #[verifier::when_used_as_spec(spec_zero)]
    pub fn zero() -> (r: Vec3d)
        ensures
            r == Vec3d::spec_zero(),
    {
        Vec3d { x: 0, y: 0, z: 0 }
    }

    pub open spec fn spec_min(self, o: Vec3d) -> Vec3d {
        Vec3d { x: scalar_min(self.x, o.x), y: scalar_min(self.y, o.y), z: scalar_min(self.z, o.z) }
    }

    pub open spec fn spec_max(self, o: Vec3d) -> Vec3d {
        Vec3d { x: scalar_max(self.x, o.x), y: scalar_max(self.y, o.y), z: scalar_max(self.z, o.z) }
    }

    /// Whether each coordinate of `self` is at most that of `o`.
    pub open spec fn le(self, o: Vec3d) -> bool {
        &&& scalar_key(self.x) <= scalar_key(o.x)
        &&& scalar_key(self.y) <= scalar_key(o.y)
        &&& scalar_key(self.z) <= scalar_key(o.z)
    }

    /// The least coordinates of the two, one by one.
    #[verifier::when_used_as_spec(spec_min)]
    pub fn min(self, o: Vec3d) -> (r: Vec3d)
        ensures
            r == self.spec_min(o),
    {
        Vec3d { x: min_of(self.x, o.x), y: min_of(self.y, o.y), z: min_of(self.z, o.z) }
    }

    /// The greatest coordinates of the two, one by one.
    #[verifier::when_used_as_spec(spec_max)]
    pub fn max(self, o: Vec3d) -> (r: Vec3d)
        ensures
            r == self.spec_max(o),
    {
        Vec3d { x: max_of(self.x, o.x), y: max_of(self.y, o.y), z: max_of(self.z, o.z) }
    }
}

/// An axis-aligned box, given by its least and greatest corner.
#[derive(Clone, Copy, PartialEq, Eq, Debug, Hash, Structural)]
pub struct BoundingBox {
    pub min: Vec3d,
    pub max: Vec3d,
}

impl View for BoundingBox {
    type V = BoundingBox;

    open spec fn view(&self) -> BoundingBox {
        *self
    }
}

impl DeepView for BoundingBox {
    type V = BoundingBox;

    open spec fn deep_view(&self) -> BoundingBox {
        *self
    }
}

impl BoundingBox {
    /// The box that holds only the origin.
    pub open spec fn spec_zero() -> BoundingBox {
        BoundingBox { min: Vec3d::spec_zero(), max: Vec3d::spec_zero() }
    }

    #[verifier::when_used_as_spec(spec_zero)]
    pub fn zero() -> (r: BoundingBox)
        ensures
            r == BoundingBox::spec_zero(),
    {
        BoundingBox { min: Vec3d::zero(), max: Vec3d::zero() }
    }

    /// The box that holds one point.
    pub open spec fn spec_of_point(p: Vec3d) -> BoundingBox {
        BoundingBox { min: p, max: p }
    }

    /// Whether `inner` lies within `self`.
    pub open spec fn contains(self, inner: BoundingBox) -> bool {
        self.min.le(inner.min) && inner.max.le(self.max)
    }

    pub open spec fn contains_point(self, p: Vec3d) -> bool {
        self.min.le(p) && p.le(self.max)
    }

    /// The least box that holds both.
    pub open spec fn spec_union(self, o: BoundingBox) -> BoundingBox {
        BoundingBox { min: self.min.spec_min(o.min), max: self.max.spec_max(o.max) }
    }

    #[verifier::when_used_as_spec(spec_union)]
    pub fn union(self, o: BoundingBox) -> (r: BoundingBox)
        ensures
            r == self.spec_union(o),
    {
        BoundingBox { min: self.min.min(o.min), max: self.max.max(o.max) }
    }

    /// The least box that holds `self` and the point.
    pub open spec fn spec_extend(self, p: Vec3d) -> BoundingBox {
        BoundingBox { min: self.min.spec_min(p), max: self.max.spec_max(p) }
    }

    #[verifier::when_used_as_spec(spec_extend)]
    pub fn extend(self, p: Vec3d) -> (r: BoundingBox)
        ensures
            r == self.spec_extend(p),
    {
        BoundingBox { min: self.min.min(p), max: self.max.max(p) }
    }
}

/// The tight box of some points: the least box that holds them all. Of no
/// points it is the box at the origin.
pub open spec fn tight_box(pts: Seq<Vec3d>) -> BoundingBox
    decreases pts.len(),
{
    if pts.len() == 0 {
        BoundingBox::spec_zero()
    } else if pts.len() == 1 {
        BoundingBox::spec_of_point(pts[0])
    } else {
        tight_box(pts.drop_last()).spec_extend(pts.last())
    }
}

/// The tight box holds each of its points.
pub proof fn lemma_tight_box_holds(pts: Seq<Vec3d>, i: int)
    requires
        0 <= i < pts.len(),
    ensures
        tight_box(pts).contains_point(pts[i]),
    decreases pts.len(),
{
    if pts.len() > 1 {
        if i < pts.len() - 1 {
            lemma_tight_box_holds(pts.drop_last(), i);
        }
    }
}

/// A union holds both of its parts.
pub proof fn lemma_union_contains(a: BoundingBox, b: BoundingBox)
    ensures
        a.spec_union(b).contains(a),
        a.spec_union(b).contains(b),
{
}

/// Computes the tight box of the points.
pub fn tight_box_of(pts: &Vec<Vec3d>) -> (r: BoundingBox)
    ensures
        r == tight_box(pts@),
{
    if pts.len() == 0 {
        return BoundingBox::zero();
    }
    let mut b = BoundingBox { min: pts[0], max: pts[0] };
    let mut i: usize = 1;
    assert(pts@.take(1).len() == 1);
    while i < pts.len()
        invariant
            1 <= i <= pts@.len(),
            b == tight_box(pts@.take(i as int)),
        decreases pts@.len() - i,
    {
        b = b.extend(pts[i]);
        proof {
            let t = pts@.take(i + 1);
            assert(t.drop_last() =~= pts@.take(i as int));
        }
        i += 1;
    }
    assert(pts@.take(i as int) =~= pts@);
    b
}

// ---------------------------------------------------------------------
// In the format
// ---------------------------------------------------------------------

/// Three coordinates, `x` first.
pub open spec fn spec_vec3d(s: Seq<u8>, pos: int) -> Parsed<Vec3d> {
    if has_bytes(s, pos, 12) {
        Ok(
            (
                Vec3d {
                    x: le_u32(s.subrange(pos, pos + 4)),
                    y: le_u32(s.subrange(pos + 4, pos + 8)),
                    z: le_u32(s.subrange(pos + 8, pos + 12)),
                },
                pos + 12,
            ),
        )
    } else {
        Err(DecodeError::TruncatedChunk)
    }
}

/// A point in the format: its three coordinates.
pub open spec fn vec3d_bytes(p: Vec3d) -> Seq<u8> {
    u32_bytes(p.x) + u32_bytes(p.y) + u32_bytes(p.z)
}

/// Two points: the least corner, then the greatest.
pub open spec fn spec_bbox(s: Seq<u8>, pos: int) -> Parsed<BoundingBox> {
    if has_bytes(s, pos, 24) {
        Ok((BoundingBox { min: spec_vec3d(s, pos)->Ok_0.0, max: spec_vec3d(s, pos + 12)->Ok_0.0 }, pos + 24))
    } else {
        Err(DecodeError::TruncatedChunk)
    }
}

/// A box in the format: its two corners.
pub open spec fn bbox_bytes(b: BoundingBox) -> Seq<u8> {
    vec3d_bytes(b.min) + vec3d_bytes(b.max)
}

pub fn read_vec3d(buf: &[u8], pos: usize) -> (r: Result<(Vec3d, usize), DecodeError>)
    ensures
        parsed(r, spec_vec3d(buf@, pos as int)),
{
    let (x, p) = read_u32(buf, pos)?;
    let (y, p) = read_u32(buf, p)?;
    let (z, p) = read_u32(buf, p)?;
    Ok((Vec3d { x, y, z }, p))
}

pub fn read_bbox(buf: &[u8], pos: usize) -> (r: Result<(BoundingBox, usize), DecodeError>)
    ensures
        parsed(r, spec_bbox(buf@, pos as int)),
{
    let (min, p) = read_vec3d(buf, pos)?;
    let (max, p) = read_vec3d(buf, p)?;
    Ok((BoundingBox { min, max }, p))
}

pub fn write_vec3d(w: &mut Vec<u8>, p: Vec3d)
    ensures
        final(w)@ == old(w)@ + vec3d_bytes(p),
{
    write_u32(w, p.x);
    write_u32(w, p.y);
    write_u32(w, p.z);
    assert(w@ =~= old(w)@ + vec3d_bytes(p));
}

pub fn write_bbox(w: &mut Vec<u8>, b: BoundingBox)
    ensures
        final(w)@ == old(w)@ + bbox_bytes(b),
{
    write_vec3d(w, b.min);
    write_vec3d(w, b.max);
    assert(w@ =~= old(w)@ + bbox_bytes(b));
}

impl Record for Vec3d {
    open spec fn parse(s: Seq<u8>, pos: int, v: Version) -> Parsed<Vec3d> {
        spec_vec3d(s, pos)
    }

    open spec fn bytes(m: Vec3d, v: Version) -> Seq<u8> {
        vec3d_bytes(m)
    }

    open spec fn encodable(m: Vec3d, v: Version) -> bool {
        true
    }

    open spec fn faithful(m: Vec3d, v: Version) -> bool {
        true
    }

    proof fn lemma_roundtrip(m: Vec3d, v: Version, s: Seq<u8>, pos: int) {
        lemma_vec3d_roundtrip(m, s, pos);
    }

    fn read(buf: &[u8], pos: usize, v: Version) -> (r: Result<(Vec3d, usize), DecodeError>) {
        read_vec3d(buf, pos)
    }

    fn write_to(&self, w: &mut Vec<u8>, v: Version) -> (r: Result<(), EncodeError>) {
        write_vec3d(w, *self);
        Ok(())
    }
}

impl Record for BoundingBox {
    open spec fn parse(s: Seq<u8>, pos: int, v: Version) -> Parsed<BoundingBox> {
        spec_bbox(s, pos)
    }

    open spec fn bytes(m: BoundingBox, v: Version) -> Seq<u8> {
        bbox_bytes(m)
    }

    open spec fn encodable(m: BoundingBox, v: Version) -> bool {
        true
    }

    open spec fn faithful(m: BoundingBox, v: Version) -> bool {
        true
    }

    proof fn lemma_roundtrip(m: BoundingBox, v: Version, s: Seq<u8>, pos: int) {
        assert(vec3d_bytes(m.min).len() == 12);
        lemma_bbox_roundtrip(m, s, pos);
    }

    fn read(buf: &[u8], pos: usize, v: Version) -> (r: Result<(BoundingBox, usize), DecodeError>) {
        read_bbox(buf, pos)
    }

    fn write_to(&self, w: &mut Vec<u8>, v: Version) -> (r: Result<(), EncodeError>) {
        write_bbox(w, *self);
        Ok(())
    }
}

/// A point reads back from its bytes, wherever they lie.
pub proof fn lemma_vec3d_roundtrip(p: Vec3d, s: Seq<u8>, pos: int)
    requires
        has_bytes(s, pos, 12),
        s.subrange(pos, pos + 12) == vec3d_bytes(p),
    ensures
        spec_vec3d(s, pos) == Ok::<(Vec3d, int), DecodeError>((p, pos + 12)),
{
    let b = vec3d_bytes(p);
    crate::bytes::lemma_le_read_written(0, p.x, 0);
    crate::bytes::lemma_le_read_written(0, p.y, 0);
    crate::bytes::lemma_le_read_written(0, p.z, 0);
    assert(s.subrange(pos, pos + 4) =~= b.subrange(0, 4));
    assert(s.subrange(pos + 4, pos + 8) =~= b.subrange(4, 8));
    assert(s.subrange(pos + 8, pos + 12) =~= b.subrange(8, 12));
    assert(b.subrange(0, 4) =~= u32_bytes(p.x));
    assert(b.subrange(4, 8) =~= u32_bytes(p.y));
    assert(b.subrange(8, 12) =~= u32_bytes(p.z));
}

/// A box reads back from its bytes, wherever they lie.
pub proof fn lemma_bbox_roundtrip(b: BoundingBox, s: Seq<u8>, pos: int)
    requires
        has_bytes(s, pos, 24),
        s.subrange(pos, pos + 24) == bbox_bytes(b),
    ensures
        spec_bbox(s, pos) == Ok::<(BoundingBox, int), DecodeError>((b, pos + 24)),
{
    let bb = bbox_bytes(b);
    crate::bytes::lemma_le_read_written(0, b.min.x, 0);
    crate::bytes::lemma_le_read_written(0, b.max.x, 0);
    assert(vec3d_bytes(b.min).len() == 12);
    assert(s.subrange(pos, pos + 12) =~= bb.subrange(0, 12));
    assert(s.subrange(pos + 12, pos + 24) =~= bb.subrange(12, 24));
    assert(bb.subrange(0, 12) =~= vec3d_bytes(b.min));
    assert(bb.subrange(12, 24) =~= vec3d_bytes(b.max));
    lemma_vec3d_roundtrip(b.min, s, pos);
    lemma_vec3d_roundtrip(b.max, s, pos + 12);
}

} // verus!
