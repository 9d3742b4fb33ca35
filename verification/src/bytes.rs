//! Little-endian scalars, length-prefixed strings and the placeholder a
//! writer leaves for a size it does not know yet.

use vstd::prelude::*;
use vstd::slice::slice_subrange;
use byteorder::ByteOrder;
use byteorder::LittleEndian;
use crate::error::DecodeError;
use crate::error::EncodeError;
use crate::version::Version;

verus! {

/// What a reader yields in the grammar: the value and the position behind
/// it, or the reason it stopped.
pub type Parsed<T> = Result<(T, int), DecodeError>;

/// An executable reader's result agrees with the grammar's.
pub open spec fn parsed<T: DeepView>(r: Result<(T, usize), DecodeError>, g: Parsed<T::V>) -> bool {
    match r {
        Ok((x, p)) => g == Ok::<(T::V, int), DecodeError>((x.deep_view(), p as int)),
        Err(e) => g == Err::<(T::V, int), DecodeError>(e),
    }
}

/// An executable decoder's result agrees with the grammar's.
pub open spec fn decoded<T: DeepView>(r: Result<T, DecodeError>, g: Result<T::V, DecodeError>) -> bool {
    match r {
        Ok(x) => g == Ok::<T::V, DecodeError>(x.deep_view()),
        Err(e) => g == Err::<T::V, DecodeError>(e),
    }
}

/// The number that two bytes spell, the low byte given first.
#[verifier::opaque]
pub open spec fn join_u16(b0: u8, b1: u8) -> u16 {
    (b0 as int + 256 * (b1 as int)) as u16
}

/// The number that four bytes spell, the low byte given first.
#[verifier::opaque]
pub open spec fn join_u32(b0: u8, b1: u8, b2: u8, b3: u8) -> u32 {
    (b0 as int + 256 * (b1 as int) + 65536 * (b2 as int) + 16777216 * (b3 as int)) as u32
}

/// Byte `k` of a number, counted from the low end.
#[verifier::opaque]
pub open spec fn byte_of(n: u32, k: int) -> u8 {
    if k == 0 {
        (n as int % 256) as u8
    } else if k == 1 {
        (n as int / 256 % 256) as u8
    } else if k == 2 {
        (n as int / 256 / 256 % 256) as u8
    } else {
        (n as int / 256 / 256 / 256 % 256) as u8
    }
}

/// A number read as two's complement.
#[verifier::opaque]
pub open spec fn as_signed(u: u32) -> i32 {
    if u < 0x8000_0000 {
        u as i32
    } else {
        (u as int - 0x1_0000_0000) as i32
    }
}

/// The two's complement of a number.
#[verifier::opaque]
pub open spec fn as_unsigned(n: i32) -> u32 {
    if n >= 0 {
        n as u32
    } else {
        (n as int + 0x1_0000_0000) as u32
    }
}

/// The number that two bytes spell, low byte first.
pub open spec fn le_u16(s: Seq<u8>) -> u16 {
    join_u16(s[0], s[1])
}

/// The number that four bytes spell, low byte first.
pub open spec fn le_u32(s: Seq<u8>) -> u32 {
    join_u32(s[0], s[1], s[2], s[3])
}

/// The signed reading of four bytes: two's complement of [`le_u32`].
pub open spec fn le_i32(s: Seq<u8>) -> i32 {
    as_signed(le_u32(s))
}

/// The two bytes of a number, low byte first.
pub open spec fn u16_bytes(n: u16) -> Seq<u8> {
    seq![byte_of(n as u32, 0), byte_of(n as u32, 1)]
}

/// The four bytes of a number, low byte first.
pub open spec fn u32_bytes(n: u32) -> Seq<u8> {
    seq![byte_of(n, 0), byte_of(n, 1), byte_of(n, 2), byte_of(n, 3)]
}

/// The four bytes of a number in two's complement, low byte first.
pub open spec fn i32_bytes(n: i32) -> Seq<u8> {
    u32_bytes(as_unsigned(n))
}

/// `byteorder::LittleEndian::read_u16`: the first two bytes of the slice,
/// read low byte first. It panics on a shorter slice.
#[verifier::external_body]
fn le_read_u16(buf: &[u8]) -> (r: u16)
    requires
        buf@.len() >= 2,
    ensures
        r == le_u16(buf@),
{
    LittleEndian::read_u16(buf)
}

/// `byteorder::LittleEndian::read_u32`: the first four bytes of the slice,
/// read low byte first. It panics on a shorter slice.
#[verifier::external_body]
fn le_read_u32(buf: &[u8]) -> (r: u32)
    requires
        buf@.len() >= 4,
    ensures
        r == le_u32(buf@),
{
    LittleEndian::read_u32(buf)
}

/// `byteorder::LittleEndian::read_i32`: as `read_u32`, the result taken as
/// two's complement.
#[verifier::external_body]
fn le_read_i32(buf: &[u8]) -> (r: i32)
    requires
        buf@.len() >= 4,
    ensures
        r == le_i32(buf@),
{
    LittleEndian::read_i32(buf)
}

/// `byteorder::LittleEndian::write_u16` into a two-byte array: the low
/// byte, then the high byte.
#[verifier::external_body]
fn le_write_u16(n: u16) -> (b: [u8; 2])
    ensures
        b@ == u16_bytes(n),
{
    let mut b = [0u8; 2];
    LittleEndian::write_u16(&mut b, n);
    b
}

/// `byteorder::LittleEndian::write_u32` into a four-byte array: the four
/// bytes of the number, low byte first.
#[verifier::external_body]
fn le_write_u32(n: u32) -> (b: [u8; 4])
    ensures
        b@ == u32_bytes(n),
{
    let mut b = [0u8; 4];
    LittleEndian::write_u32(&mut b, n);
    b
}

/// `byteorder::LittleEndian::write_i32` into a four-byte array: the four
/// bytes of the number's two's complement, low byte first.
#[verifier::external_body]
fn le_write_i32(n: i32) -> (b: [u8; 4])
    ensures
        b@ == i32_bytes(n),
{
    let mut b = [0u8; 4];
    LittleEndian::write_i32(&mut b, n);
    b
}

/// Reading back what was written gives the number.
pub proof fn lemma_le_read_written(a: u16, n: u32, i: i32)
    ensures
        u16_bytes(a).len() == 2,
        u32_bytes(n).len() == 4,
        i32_bytes(i).len() == 4,
        le_u16(u16_bytes(a)) == a,
        le_u32(u32_bytes(n)) == n,
        le_i32(i32_bytes(i)) == i,
{
    reveal(as_signed);
    reveal(as_unsigned);
    lemma_u32_read_written(n);
    lemma_u32_read_written(as_unsigned(i));
    assert(le_u16(u16_bytes(a)) == a) by {
        reveal(join_u16);
        reveal(byte_of);
    }
}

proof fn lemma_u32_read_written(n: u32)
    ensures
        le_u32(u32_bytes(n)) == n,
{
    reveal(join_u32);
    reveal(byte_of);
    let x = n as int;
    let q1 = x / 256;
    let q2 = q1 / 256;
    let q3 = q2 / 256;
    assert(x == 256 * q1 + x % 256);
    assert(q1 == 256 * q2 + q1 % 256);
    assert(q2 == 256 * q3 + q2 % 256);
    assert(0 <= q3 < 256);
}

/// Writing what was read gives the bytes.
pub proof fn lemma_le_write_read(s: Seq<u8>)
    ensures
        s.len() == 2 ==> u16_bytes(le_u16(s)) == s,
        s.len() == 4 ==> u32_bytes(le_u32(s)) == s,
        s.len() == 4 ==> i32_bytes(le_i32(s)) == s,
{
    if s.len() == 2 {
        assert(u16_bytes(le_u16(s)) =~= s) by {
            reveal(join_u16);
            reveal(byte_of);
        }
    }
    if s.len() == 4 {
        lemma_u32_write_read(s);
        assert(as_unsigned(as_signed(le_u32(s))) == le_u32(s)) by {
            reveal(as_signed);
            reveal(as_unsigned);
        }
    }
}

proof fn lemma_u32_write_read(s: Seq<u8>)
    requires
        s.len() == 4,
    ensures
        u32_bytes(le_u32(s)) == s,
{
    reveal(join_u32);
    reveal(byte_of);
    let a = s[0] as int;
    let b = s[1] as int;
    let c = s[2] as int;
    let d = s[3] as int;
    let x = a + 256 * b + 65536 * c + 16777216 * d;
    assert(x == a + 256 * (b + 256 * (c + 256 * d)));
    let q1 = b + 256 * (c + 256 * d);
    assert(x / 256 == q1 && x % 256 == a);
    let q2 = c + 256 * d;
    assert(q1 / 256 == q2 && q1 % 256 == b);
    assert(q2 / 256 == d && q2 % 256 == c);
    assert(u32_bytes(le_u32(s)) =~= s);
}

// ---------------------------------------------------------------------
// Grammar of the scalar readers
// ---------------------------------------------------------------------

/// Whether `n` bytes lie at `pos`.
pub open spec fn has_bytes(s: Seq<u8>, pos: int, n: int) -> bool {
    0 <= pos && pos + n <= s.len()
}

pub open spec fn spec_u8(s: Seq<u8>, pos: int) -> Parsed<u8> {
    if has_bytes(s, pos, 1) {
        Ok((s[pos], pos + 1))
    } else {
        Err(DecodeError::TruncatedChunk)
    }
}

pub open spec fn spec_u16(s: Seq<u8>, pos: int) -> Parsed<u16> {
    if has_bytes(s, pos, 2) {
        Ok((le_u16(s.subrange(pos, pos + 2)), pos + 2))
    } else {
        Err(DecodeError::TruncatedChunk)
    }
}

/// Four bytes, read as a number.
pub open spec fn spec_u32(s: Seq<u8>, pos: int) -> Parsed<u32> {
    if has_bytes(s, pos, 4) {
        Ok((le_u32(s.subrange(pos, pos + 4)), pos + 4))
    } else {
        Err(DecodeError::TruncatedChunk)
    }
}

/// Four bytes, read as a signed number.
pub open spec fn spec_i32(s: Seq<u8>, pos: int) -> Parsed<i32> {
    if has_bytes(s, pos, 4) {
        Ok((le_i32(s.subrange(pos, pos + 4)), pos + 4))
    } else {
        Err(DecodeError::TruncatedChunk)
    }
}

/// `n` raw bytes.
pub open spec fn spec_bytes(s: Seq<u8>, pos: int, n: int) -> Parsed<Seq<u8>> {
    if n >= 0 && has_bytes(s, pos, n) {
        Ok((s.subrange(pos, pos + n), pos + n))
    } else {
        Err(DecodeError::TruncatedChunk)
    }
}

/// A length and that many bytes.
pub open spec fn spec_byte_buffer(s: Seq<u8>, pos: int) -> Parsed<Seq<u8>> {
    match spec_u32(s, pos) {
        Err(e) => Err(e),
        Ok((n, p)) => spec_bytes(s, p, n as int),
    }
}

/// The index of the first NUL at or after `i`, or the length if there is none.
pub open spec fn nul_index(s: Seq<u8>, i: int) -> int
    decreases s.len() - i,
{
    if i < 0 || i >= s.len() || s[i] == 0 {
        i
    } else {
        nul_index(s, i + 1)
    }
}

/// The bytes before the first NUL.
pub open spec fn until_nul(s: Seq<u8>) -> Seq<u8> {
    s.take(nul_index(s, 0))
}

/// A string: a byte buffer whose value ends before its first NUL.
pub open spec fn spec_string(s: Seq<u8>, pos: int) -> Parsed<Seq<u8>> {
    match spec_byte_buffer(s, pos) {
        Err(e) => Err(e),
        Ok((b, p)) => Ok((until_nul(b), p)),
    }
}

// ---------------------------------------------------------------------
// Readers
// ---------------------------------------------------------------------

pub fn read_u8(buf: &[u8], pos: usize) -> (r: Result<(u8, usize), DecodeError>)
    ensures
        parsed(r, spec_u8(buf@, pos as int)),
{
    if pos >= buf.len() {
        return Err(DecodeError::TruncatedChunk);
    }
    Ok((buf[pos], pos + 1))
}

pub fn read_u16(buf: &[u8], pos: usize) -> (r: Result<(u16, usize), DecodeError>)
    ensures
        parsed(r, spec_u16(buf@, pos as int)),
{
    if pos > buf.len() || buf.len() - pos < 2 {
        return Err(DecodeError::TruncatedChunk);
    }
    let v = le_read_u16(slice_subrange(buf, pos, pos + 2));
    Ok((v, pos + 2))
}

pub fn read_u32(buf: &[u8], pos: usize) -> (r: Result<(u32, usize), DecodeError>)
    ensures
        parsed(r, spec_u32(buf@, pos as int)),
{
    if pos > buf.len() || buf.len() - pos < 4 {
        return Err(DecodeError::TruncatedChunk);
    }
    let v = le_read_u32(slice_subrange(buf, pos, pos + 4));
    Ok((v, pos + 4))
}

pub fn read_i32(buf: &[u8], pos: usize) -> (r: Result<(i32, usize), DecodeError>)
    ensures
        parsed(r, spec_i32(buf@, pos as int)),
{
    if pos > buf.len() || buf.len() - pos < 4 {
        return Err(DecodeError::TruncatedChunk);
    }
    let v = le_read_i32(slice_subrange(buf, pos, pos + 4));
    Ok((v, pos + 4))
}

/// Copies `n` bytes out of the buffer.
pub fn read_bytes(buf: &[u8], pos: usize, n: usize) -> (r: Result<(Vec<u8>, usize), DecodeError>)
    ensures
        parsed(r, spec_bytes(buf@, pos as int, n as int)),
{
    if pos > buf.len() || buf.len() - pos < n {
        return Err(DecodeError::TruncatedChunk);
    }
    let mut out: Vec<u8> = Vec::new();
    let mut i: usize = 0;
    while i < n
        invariant
            pos + n <= buf@.len() <= usize::MAX,
            i <= n,
            out@ == buf@.subrange(pos as int, pos + i),
        decreases n - i,
    {
        out.push(buf[pos + i]);
        i += 1;
        assert(out@ =~= buf@.subrange(pos as int, pos + i));
    }
    assert(out.deep_view() =~= out@);
    Ok((out, pos + n))
}

/// Reads a length and that many bytes.
pub fn read_byte_buffer(buf: &[u8], pos: usize) -> (r: Result<(Vec<u8>, usize), DecodeError>)
    ensures
        parsed(r, spec_byte_buffer(buf@, pos as int)),
{
    let (n, p) = read_u32(buf, pos)?;
    read_bytes(buf, p, n as usize)
}

/// Reads a string: a byte buffer, of which the bytes before the first
/// NUL are the value.
pub fn read_string(buf: &[u8], pos: usize) -> (r: Result<(Vec<u8>, usize), DecodeError>)
    ensures
        parsed(r, spec_string(buf@, pos as int)),
{
    let (mut b, p) = read_byte_buffer(buf, pos)?;
    let ghost full = b@;
    assert(b.deep_view() =~= b@);
    let mut end: usize = 0;
    while end < b.len() && b[end] != 0
        invariant
            b@ == full,
            end <= b.len(),
            nul_index(full, 0) == nul_index(full, end as int),
        decreases b.len() - end,
    {
        end += 1;
    }
    b.truncate(end);
    assert(b.deep_view() =~= b@);
    assert(b@ =~= until_nul(full));
    Ok((b, p))
}

// ---------------------------------------------------------------------
// Grammar of the scalar writers
// ---------------------------------------------------------------------

/// `n` NUL bytes.
pub open spec fn zeros(n: int) -> Seq<u8> {
    Seq::new(n as nat, |i: int| 0u8)
}

/// The padding behind a string of `n` bytes: at least one NUL, up to the
/// next multiple of four.
pub open spec fn pad_len(n: int) -> int {
    4 - n % 4
}

/// The padding that brings a buffer of `n` bytes to a multiple of four.
pub open spec fn align_pad(n: int) -> int {
    (4 - n % 4) % 4
}

/// Whether the padded length of a text fits the length field.
pub open spec fn string_encodable(t: Seq<u8>) -> bool {
    t.len() + pad_len(t.len() as int) <= u32::MAX
}

/// A string in the format: the length of text and padding, the text,
/// the padding.
pub open spec fn string_bytes(t: Seq<u8>) -> Seq<u8> {
    u32_bytes((t.len() + pad_len(t.len() as int)) as u32) + t + zeros(pad_len(t.len() as int))
}

// ---------------------------------------------------------------------
// Writers
// ---------------------------------------------------------------------

pub fn write_u8(w: &mut Vec<u8>, n: u8)
    ensures
        final(w)@ == old(w)@ + seq![n],
{
    w.push(n);
    assert(w@ =~= old(w)@ + seq![n]);
}

pub fn write_u16(w: &mut Vec<u8>, n: u16)
    ensures
        final(w)@ == old(w)@ + u16_bytes(n),
{
    let b = le_write_u16(n);
    w.push(b[0]);
    w.push(b[1]);
    assert(w@ =~= old(w)@ + u16_bytes(n));
}

pub fn write_u32(w: &mut Vec<u8>, n: u32)
    ensures
        final(w)@ == old(w)@ + u32_bytes(n),
{
    let b = le_write_u32(n);
    w.push(b[0]);
    w.push(b[1]);
    w.push(b[2]);
    w.push(b[3]);
    assert(w@ =~= old(w)@ + u32_bytes(n));
}

pub fn write_i32(w: &mut Vec<u8>, n: i32)
    ensures
        final(w)@ == old(w)@ + i32_bytes(n),
{
    let b = le_write_i32(n);
    w.push(b[0]);
    w.push(b[1]);
    w.push(b[2]);
    w.push(b[3]);
    assert(w@ =~= old(w)@ + i32_bytes(n));
}

/// Appends the bytes as they are.
pub fn write_bytes(w: &mut Vec<u8>, b: &[u8])
    ensures
        final(w)@ == old(w)@ + b@,
{
    let mut i: usize = 0;
    while i < b.len()
        invariant
            i <= b@.len(),
            w@ == old(w)@ + b@.take(i as int),
        decreases b@.len() - i,
    {
        w.push(b[i]);
        i += 1;
        assert(w@ =~= old(w)@ + b@.take(i as int));
    }
    assert(b@.take(i as int) =~= b@);
}

/// Appends `n` NUL bytes.
pub fn write_zeros(w: &mut Vec<u8>, n: usize)
    ensures
        final(w)@ == old(w)@ + zeros(n as int),
{
    let mut i: usize = 0;
    while i < n
        invariant
            i <= n,
            w@ == old(w)@ + zeros(i as int),
        decreases n - i,
    {
        w.push(0);
        i += 1;
        assert(w@ =~= old(w)@ + zeros(i as int));
    }
}

/// Appends a string: its padded length, its bytes, its padding.
pub fn write_string(w: &mut Vec<u8>, t: &Vec<u8>) -> (r: Result<(), EncodeError>)
    ensures
        r is Ok <==> string_encodable(t@),
        r is Ok ==> final(w)@ == old(w)@ + string_bytes(t@),
        r is Err ==> final(w)@ == old(w)@,
{
    let n = t.len();
    let pad: usize = 4 - n % 4;
    if n > 0xffff_ffff - pad {
        return Err(EncodeError::Unrepresentable);
    }
    write_u32(w, (n + pad) as u32);
    write_bytes(w, t.as_slice());
    write_zeros(w, pad);
    assert(w@ =~= old(w)@ + string_bytes(t@));
    Ok(())
}

/// Pads the buffer with NUL bytes to a multiple of four.
pub fn align_buf(buf: &mut Vec<u8>)
    ensures
        final(buf)@ == old(buf)@ + zeros(align_pad(old(buf)@.len() as int)),
{
    let pad: usize = (4 - buf.len() % 4) % 4;
    write_zeros(buf, pad);
}

/// A four-byte placeholder in a buffer, for a distance that is known only
/// once more has been written: the distance from `base` to the end of the
/// buffer at the moment the placeholder is finished.
#[must_use]
pub struct Fixup {
    location: usize,
    base: usize,
}

impl Fixup {
    pub closed spec fn location(self) -> int {
        self.location as int
    }

    pub closed spec fn base(self) -> int {
        self.base as int
    }

    /// Reserves the placeholder at the end of the buffer.
    pub fn new(buf: &mut Vec<u8>, base: usize) -> (f: Fixup)
        ensures
            final(buf)@ == old(buf)@ + u32_bytes(0),
            f.location() == old(buf)@.len(),
            f.base() == base,
    {
        let n = buf.len();
        write_u32(buf, 0);
        Fixup { location: n, base }
    }

    /// Overwrites the placeholder with the distance from the base to the
    /// end of the buffer, and returns that distance. Nothing is written
    /// if the distance does not fit in four bytes.
    pub fn finish(self, buf: &mut Vec<u8>) -> (r: Result<u32, EncodeError>)
        requires
            self.base() <= old(buf)@.len(),
            self.location() + 4 <= old(buf)@.len(),
        ensures
            r is Ok <==> old(buf)@.len() - self.base() <= u32::MAX,
            r matches Ok(size) ==> size == old(buf)@.len() - self.base() && final(buf)@ == patched(
                old(buf)@,
                self.location(),
                size,
            ),
            r is Err ==> final(buf)@ == old(buf)@,
    {
        let d = buf.len() - self.base;
        if d > 0xffff_ffff {
            return Err(EncodeError::Unrepresentable);
        }
        let size = d as u32;
        let b = le_write_u32(size);
        buf.set(self.location, b[0]);
        buf.set(self.location + 1, b[1]);
        buf.set(self.location + 2, b[2]);
        buf.set(self.location + 3, b[3]);
        assert(buf@ =~= patched(old(buf)@, self.location(), size)) by {
            reveal(patched);
        }
        Ok(size)
    }
}

/// The buffer with the four bytes at `at` replaced by the number `n`.
#[verifier::opaque]
pub open spec fn patched(s: Seq<u8>, at: int, n: u32) -> Seq<u8> {
    s.subrange(0, at) + u32_bytes(n) + s.subrange(at + 4, s.len() as int)
}

// ---------------------------------------------------------------------
// Records and lists
// ---------------------------------------------------------------------

/// A value with a place in the format: a grammar that reads it, a grammar
/// that writes it, and the two executable functions that follow them.
pub trait Record: Sized + DeepView {
    /// What a reader finds at `pos`.
    spec fn parse(s: Seq<u8>, pos: int, v: Version) -> Parsed<Self::V>;

    /// What a writer emits.
    spec fn bytes(m: Self::V, v: Version) -> Seq<u8>;

    /// Whether every count and size of the value fits its field.
    spec fn encodable(m: Self::V, v: Version) -> bool;

    /// Whether the value is one that a reader can yield: its texts hold
    /// no NUL, and a field that the revision does not store holds its
    /// default.
    spec fn faithful(m: Self::V, v: Version) -> bool;

    /// What a writer emits for a value that a reader can yield, the
    /// reader reads back as that value, wherever the bytes stand.
    proof fn lemma_roundtrip(m: Self::V, v: Version, s: Seq<u8>, pos: int)
        requires
            Self::encodable(m, v),
            Self::faithful(m, v),
            stands_at(s, pos, Self::bytes(m, v)),
        ensures
            Self::parse(s, pos, v) == Ok::<(Self::V, int), DecodeError>(
                (m, pos + Self::bytes(m, v).len()),
            ),
    ;

    fn read(buf: &[u8], pos: usize, v: Version) -> (r: Result<(Self, usize), DecodeError>)
        ensures
            parsed(r, Self::parse(buf@, pos as int, v)),
    ;

    fn write_to(&self, w: &mut Vec<u8>, v: Version) -> (r: Result<(), EncodeError>)
        ensures
            r is Ok <==> Self::encodable(self.deep_view(), v),
            r is Ok ==> final(w)@ == old(w)@ + Self::bytes(self.deep_view(), v),
    ;
}

impl Record for u32 {
    open spec fn parse(s: Seq<u8>, pos: int, v: Version) -> Parsed<u32> {
        spec_u32(s, pos)
    }

    open spec fn bytes(m: u32, v: Version) -> Seq<u8> {
        u32_bytes(m)
    }

    open spec fn encodable(m: u32, v: Version) -> bool {
        true
    }

    open spec fn faithful(m: u32, v: Version) -> bool {
        true
    }

    proof fn lemma_roundtrip(m: u32, v: Version, s: Seq<u8>, pos: int) {
        lemma_u32_stands(s, pos, m);
    }

    fn read(buf: &[u8], pos: usize, v: Version) -> (r: Result<(u32, usize), DecodeError>) {
        read_u32(buf, pos)
    }

    fn write_to(&self, w: &mut Vec<u8>, v: Version) -> (r: Result<(), EncodeError>) {
        write_u32(w, *self);
        Ok(())
    }
}

/// `n` items, one after the other.
pub open spec fn spec_list_n<T: Record>(s: Seq<u8>, pos: int, n: nat, v: Version) -> Parsed<Seq<T::V>>
    decreases n,
{
    if n == 0 {
        Ok((Seq::empty(), pos))
    } else {
        match spec_list_n::<T>(s, pos, (n - 1) as nat, v) {
            Err(e) => Err(e),
            Ok((xs, p)) => match T::parse(s, p, v) {
                Err(e) => Err(e),
                Ok((x, q)) => Ok((xs.push(x), q)),
            },
        }
    }
}

/// A count and that many items.
pub open spec fn spec_list<T: Record>(s: Seq<u8>, pos: int, v: Version) -> Parsed<Seq<T::V>> {
    match spec_u32(s, pos) {
        Err(e) => Err(e),
        Ok((n, p)) => spec_list_n::<T>(s, p, n as nat, v),
    }
}

/// The items' bytes, one after the other.
pub open spec fn items_bytes<T: Record>(xs: Seq<T::V>, v: Version) -> Seq<u8>
    decreases xs.len(),
{
    if xs.len() == 0 {
        Seq::empty()
    } else {
        items_bytes::<T>(xs.drop_last(), v) + T::bytes(xs.last(), v)
    }
}

pub open spec fn items_encodable<T: Record>(xs: Seq<T::V>, v: Version) -> bool {
    forall|i: int| 0 <= i < xs.len() ==> T::encodable(#[trigger] xs[i], v)
}

/// A list in the format: the count, then the items.
pub open spec fn list_bytes<T: Record>(xs: Seq<T::V>, v: Version) -> Seq<u8> {
    u32_bytes(xs.len() as u32) + items_bytes::<T>(xs, v)
}

/// Whether the count fits its field and every item can be written.
pub open spec fn list_encodable<T: Record>(xs: Seq<T::V>, v: Version) -> bool {
    xs.len() <= u32::MAX && items_encodable::<T>(xs, v)
}

/// Once an item fails, every longer list fails with it.
proof fn lemma_list_n_error<T: Record>(s: Seq<u8>, pos: int, k: nat, n: nat, v: Version)
    requires
        k <= n,
        spec_list_n::<T>(s, pos, k, v) is Err,
    ensures
        spec_list_n::<T>(s, pos, n, v) == spec_list_n::<T>(s, pos, k, v),
    decreases n,
{
    if k < n {
        lemma_list_n_error::<T>(s, pos, k, (n - 1) as nat, v);
    }
}

/// Reads `n` items, one after the other.
pub fn read_list_n<T: Record>(buf: &[u8], pos: usize, n: usize, v: Version) -> (r: Result<
    (Vec<T>, usize),
    DecodeError,
>)
    ensures
        parsed(r, spec_list_n::<T>(buf@, pos as int, n as nat, v)),
{
    let mut out: Vec<T> = Vec::new();
    let mut p = pos;
    let mut i: usize = 0;
    assert(out.deep_view() =~= Seq::<T::V>::empty());
    while i < n
        invariant
            i <= n,
            spec_list_n::<T>(buf@, pos as int, i as nat, v) == Ok::<(Seq<T::V>, int), DecodeError>(
                (out.deep_view(), p as int),
            ),
        decreases n - i,
    {
        let ghost before = out.deep_view();
        match T::read(buf, p, v) {
            Err(e) => {
                proof {
                    lemma_list_n_error::<T>(buf@, pos as int, (i + 1) as nat, n as nat, v);
                }
                return Err(e);
            },
            Ok((x, q)) => {
                out.push(x);
                p = q;
                i += 1;
                assert(out.deep_view() =~= before.push(x.deep_view()));
            },
        }
    }
    Ok((out, p))
}

/// Reads a count and that many items.
pub fn read_list<T: Record>(buf: &[u8], pos: usize, v: Version) -> (r: Result<
    (Vec<T>, usize),
    DecodeError,
>)
    ensures
        parsed(r, spec_list::<T>(buf@, pos as int, v)),
{
    let (n, p) = read_u32(buf, pos)?;
    read_list_n::<T>(buf, p, n as usize, v)
}

/// Writes the items one after the other, without a count.
pub fn write_items<T: Record>(w: &mut Vec<u8>, xs: &Vec<T>, v: Version) -> (r: Result<
    (),
    EncodeError,
>)
    ensures
        r is Ok <==> items_encodable::<T>(xs.deep_view(), v),
        r is Ok ==> final(w)@ == old(w)@ + items_bytes::<T>(xs.deep_view(), v),
{
    let mut i: usize = 0;
    assert(xs.deep_view().take(0) =~= Seq::<T::V>::empty());
    while i < xs.len()
        invariant
            i <= xs@.len(),
            items_encodable::<T>(xs.deep_view().take(i as int), v),
            w@ == old(w)@ + items_bytes::<T>(xs.deep_view().take(i as int), v),
        decreases xs@.len() - i,
    {
        let ghost dv = xs.deep_view();
        assert(dv[i as int] == xs@[i as int].deep_view());
        match xs[i].write_to(w, v) {
            Err(e) => {
                return Err(e);
            },
            Ok(()) => {},
        }
        proof {
            let a = dv.take(i as int);
            let b = dv.take(i + 1);
            assert(b.drop_last() =~= a);
            assert(b.last() == dv[i as int]);
            assert(w@ =~= old(w)@ + items_bytes::<T>(b, v));
        }
        i += 1;
    }
    assert(xs.deep_view().take(i as int) =~= xs.deep_view());
    Ok(())
}

impl<T: Record> Record for Vec<T> {
    open spec fn parse(s: Seq<u8>, pos: int, v: Version) -> Parsed<Seq<T::V>> {
        spec_list::<T>(s, pos, v)
    }

    open spec fn bytes(m: Seq<T::V>, v: Version) -> Seq<u8> {
        list_bytes::<T>(m, v)
    }

    open spec fn encodable(m: Seq<T::V>, v: Version) -> bool {
        list_encodable::<T>(m, v)
    }

    open spec fn faithful(m: Seq<T::V>, v: Version) -> bool {
        items_faithful::<T>(m, v)
    }

    proof fn lemma_roundtrip(m: Seq<T::V>, v: Version, s: Seq<u8>, pos: int) {
        lemma_stands_split(s, pos, u32_bytes(m.len() as u32), items_bytes::<T>(m, v));
        lemma_u32_stands(s, pos, m.len() as u32);
        lemma_items_roundtrip::<T>(m, v, s, pos + 4);
    }

    fn read(buf: &[u8], pos: usize, v: Version) -> (r: Result<(Vec<T>, usize), DecodeError>) {
        read_list::<T>(buf, pos, v)
    }

    fn write_to(&self, w: &mut Vec<u8>, v: Version) -> (r: Result<(), EncodeError>) {
        if self.len() > 0xffff_ffff {
            return Err(EncodeError::Unrepresentable);
        }
        write_u32(w, self.len() as u32);
        let r = write_items::<T>(w, self, v);
        proof {
            if r is Ok {
                assert(w@ =~= old(w)@ + list_bytes::<T>(self.deep_view(), v));
            }
        }
        r
    }
}

impl Record for i32 {
    open spec fn parse(s: Seq<u8>, pos: int, v: Version) -> Parsed<i32> {
        spec_i32(s, pos)
    }

    open spec fn bytes(m: i32, v: Version) -> Seq<u8> {
        i32_bytes(m)
    }

    open spec fn encodable(m: i32, v: Version) -> bool {
        true
    }

    open spec fn faithful(m: i32, v: Version) -> bool {
        true
    }

    proof fn lemma_roundtrip(m: i32, v: Version, s: Seq<u8>, pos: int) {
        lemma_le_read_written(0, 0, m);
    }

    fn read(buf: &[u8], pos: usize, v: Version) -> (r: Result<(i32, usize), DecodeError>) {
        read_i32(buf, pos)
    }

    fn write_to(&self, w: &mut Vec<u8>, v: Version) -> (r: Result<(), EncodeError>) {
        write_i32(w, *self);
        Ok(())
    }
}

/// A piece of text as the format holds it: bytes, with no meaning given
/// to them here. What is read ends before the first NUL.
#[derive(Clone, PartialEq, Eq, Debug, Hash)]
pub struct Text {
    pub bytes: Vec<u8>,
}

impl DeepView for Text {
    type V = Seq<u8>;

    open spec fn deep_view(&self) -> Seq<u8> {
        self.bytes@
    }
}

impl Text {
    pub fn new(bytes: Vec<u8>) -> (t: Text)
        ensures
            t.deep_view() == bytes@,
    {
        Text { bytes }
    }

    /// The empty text.
    pub fn empty() -> (t: Text)
        ensures
            t.deep_view() == Seq::<u8>::empty(),
    {
        Text { bytes: Vec::new() }
    }

    pub fn is_empty(&self) -> (r: bool)
        ensures
            r == (self.deep_view().len() == 0),
    {
        self.bytes.len() == 0
    }
}

impl Record for Text {
    open spec fn parse(s: Seq<u8>, pos: int, v: Version) -> Parsed<Seq<u8>> {
        spec_string(s, pos)
    }

    open spec fn bytes(m: Seq<u8>, v: Version) -> Seq<u8> {
        string_bytes(m)
    }

    open spec fn encodable(m: Seq<u8>, v: Version) -> bool {
        string_encodable(m)
    }

    open spec fn faithful(m: Seq<u8>, v: Version) -> bool {
        no_nul(m)
    }

    proof fn lemma_roundtrip(m: Seq<u8>, v: Version, s: Seq<u8>, pos: int) {
        lemma_string_stands(s, pos, m);
    }

    fn read(buf: &[u8], pos: usize, v: Version) -> (r: Result<(Text, usize), DecodeError>) {
        let (bytes, p) = read_string(buf, pos)?;
        assert(bytes.deep_view() =~= bytes@);
        Ok((Text { bytes }, p))
    }

    fn write_to(&self, w: &mut Vec<u8>, v: Version) -> (r: Result<(), EncodeError>) {
        write_string(w, &self.bytes)
    }
}

/// Moves the items into a new vector, last first.
pub fn reversed<T>(v: Vec<T>) -> (r: Vec<T>)
    ensures
        r@ == v@.reverse(),
{
    let mut v = v;
    let ghost orig = v@;
    let mut r: Vec<T> = Vec::new();
    while v.len() > 0
        invariant
            r@.len() + v@.len() == orig.len(),
            v@ == orig.take(v@.len() as int),
            forall|i: int| 0 <= i < r@.len() ==> r@[i] == orig[orig.len() - 1 - i],
        decreases v@.len(),
    {
        let ghost rb = r@;
        let x = v.pop().unwrap();
        r.push(x);
        assert(v@ =~= orig.take(v@.len() as int));
        assert forall|i: int| 0 <= i < r@.len() implies r@[i] == orig[orig.len() - 1 - i] by {
            if i < rb.len() {
                assert(r@[i] == rb[i]);
            }
        }
    }
    assert(r@ =~= orig.reverse());
    r
}

// ---------------------------------------------------------------------
// Reading back what was written
// ---------------------------------------------------------------------

/// The bytes `b` stand in `s` at `pos`.
pub open spec fn stands_at(s: Seq<u8>, pos: int, b: Seq<u8>) -> bool {
    0 <= pos && pos + b.len() <= s.len() && s.subrange(pos, pos + b.len()) == b
}

/// Where two pieces stand one behind the other, each stands by itself.
pub proof fn lemma_stands_split(s: Seq<u8>, pos: int, x: Seq<u8>, y: Seq<u8>)
    requires
        stands_at(s, pos, x + y),
    ensures
        stands_at(s, pos, x),
        stands_at(s, pos + x.len(), y),
{
    let w = s.subrange(pos, pos + (x + y).len());
    assert(s.subrange(pos, pos + x.len()) =~= w.subrange(0, x.len() as int));
    assert(w.subrange(0, x.len() as int) =~= x);
    assert(s.subrange(pos + x.len(), pos + x.len() + y.len()) =~= w.subrange(
        x.len() as int,
        (x.len() + y.len()) as int,
    ));
    assert(w.subrange(x.len() as int, (x.len() + y.len()) as int) =~= y);
}

/// A number that stands at a position is the number read there.
pub proof fn lemma_u32_stands(s: Seq<u8>, pos: int, n: u32)
    requires
        stands_at(s, pos, u32_bytes(n)),
    ensures
        spec_u32(s, pos) == Ok::<(u32, int), DecodeError>((n, pos + 4)),
        le_u32(s.subrange(pos, pos + 4)) == n,
        has_bytes(s, pos, 4),
{
    lemma_le_read_written(0, n, 0);
}

/// Whether a text holds no NUL.
pub open spec fn no_nul(t: Seq<u8>) -> bool {
    forall|i: int| 0 <= i < t.len() ==> t[i] != 0
}

/// In a text without a NUL that is followed by a NUL, the first NUL from
/// any place of the text on is the one behind it.
proof fn lemma_nul_index(b: Seq<u8>, n: int, i: int)
    requires
        0 <= i <= n < b.len(),
        forall|j: int| 0 <= j < n ==> b[j] != 0,
        b[n] == 0,
    ensures
        nul_index(b, i) == n,
    decreases n - i,
{
    if i < n {
        lemma_nul_index(b, n, i + 1);
    }
}

/// A text without a NUL that is padded with NULs ends before the padding.
pub proof fn lemma_until_nul_padded(t: Seq<u8>, pad: int)
    requires
        no_nul(t),
        pad >= 1,
    ensures
        until_nul(t + zeros(pad)) == t,
{
    let body = t + zeros(pad);
    lemma_nul_index(body, t.len() as int, 0);
    assert(until_nul(body) =~= t);
}

/// A string without a NUL reads back.
pub proof fn lemma_string_stands(s: Seq<u8>, pos: int, t: Seq<u8>)
    requires
        string_encodable(t),
        no_nul(t),
        stands_at(s, pos, string_bytes(t)),
    ensures
        spec_string(s, pos) == Ok::<(Seq<u8>, int), DecodeError>(
            (t, pos + string_bytes(t).len()),
        ),
{
    let pad = pad_len(t.len() as int);
    let n = (t.len() + pad) as u32;
    let body = t + zeros(pad);
    assert(string_bytes(t) =~= u32_bytes(n) + body);
    lemma_stands_split(s, pos, u32_bytes(n), body);
    lemma_u32_stands(s, pos, n);
    lemma_nul_index(body, t.len() as int, 0);
    assert(until_nul(body) =~= t);
}

pub open spec fn items_faithful<T: Record>(xs: Seq<T::V>, v: Version) -> bool {
    forall|i: int| 0 <= i < xs.len() ==> T::faithful(#[trigger] xs[i], v)
}

/// Items that stand one behind the other read back as a list of as many.
pub proof fn lemma_items_roundtrip<T: Record>(xs: Seq<T::V>, v: Version, s: Seq<u8>, pos: int)
    requires
        items_encodable::<T>(xs, v),
        items_faithful::<T>(xs, v),
        stands_at(s, pos, items_bytes::<T>(xs, v)),
    ensures
        spec_list_n::<T>(s, pos, xs.len(), v) == Ok::<(Seq<T::V>, int), DecodeError>(
            (xs, pos + items_bytes::<T>(xs, v).len()),
        ),
    decreases xs.len(),
{
    if xs.len() == 0 {
        assert(xs =~= Seq::<T::V>::empty());
    } else {
        let init = xs.drop_last();
        lemma_stands_split(s, pos, items_bytes::<T>(init, v), T::bytes(xs.last(), v));
        assert(items_encodable::<T>(init, v)) by {
            assert forall|i: int| 0 <= i < init.len() implies T::encodable(#[trigger] init[i], v) by {
                assert(init[i] == xs[i]);
            }
        }
        assert(items_faithful::<T>(init, v)) by {
            assert forall|i: int| 0 <= i < init.len() implies T::faithful(#[trigger] init[i], v) by {
                assert(init[i] == xs[i]);
            }
        }
        lemma_items_roundtrip::<T>(init, v, s, pos);
        assert(T::encodable(xs[xs.len() - 1], v) && T::faithful(xs[xs.len() - 1], v));
        T::lemma_roundtrip(xs.last(), v, s, pos + items_bytes::<T>(init, v).len());
        assert(init.push(xs.last()) =~= xs);
    }
}

} // verus!
