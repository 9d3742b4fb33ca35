//! Reading a file: the magic, the version, and then chunk after chunk
//! until the bytes end.
//!
//! A chunk is a four-byte tag, a four-byte length and a payload. A chunk
//! with a known tag is read field by field; a chunk with an unknown tag
//! is skipped by its length.

use vstd::prelude::*;
use crate::bsp_build::{classifier_ok, side_of, Side};
use crate::bytes::{
    decoded, has_bytes, read_byte_buffer, read_bytes, read_i32, read_list, read_list_n, read_string,
    read_u32, spec_byte_buffer, spec_bytes, spec_i32, spec_list, spec_list_n, spec_string, spec_u32,
    until_nul, Parsed, Record, Text,
};
use crate::error::{DecodeError, Violation};
use crate::geom::{read_bbox, read_vec3d, spec_bbox, spec_vec3d, BoundingBox, Vec3d};
use crate::header::{read_header_chunk, spec_header_chunk};
use crate::model::{finish, spec_finish, Model, ParseState, SpecModel, SpecParseState};
use crate::records::{
    Dock, EyePoint, GlowPointBank, Insignia, Path, SpecTurret, SpecialPoint, ThrusterBank, Turret,
    WeaponHardpoint,
};
use crate::shield::ShieldPolygon;
use crate::subobject::{read_subobject, spec_subobject, SpecSubObject, SubObject};
use crate::version::Version;

verus! {

/// The four bytes that open a file, read as a number: `PSPO`.
pub const MAGIC: u32 = 0x4f505350;

/// The tag `OHDR`, read as a number: the object header, legacy layout.
pub const TAG_OHDR: u32 = 0x5244484f;

/// The tag `HDR2`, read as a number: the object header, current layout.
pub const TAG_HDR2: u32 = 0x32524448;

/// The tag `SOBJ`, read as a number: a subobject, legacy layout.
pub const TAG_SOBJ: u32 = 0x4a424f53;

/// The tag `OBJ2`, read as a number: a subobject, current layout.
pub const TAG_OBJ2: u32 = 0x324a424f;

/// The tag `TXTR`, read as a number: the texture list.
pub const TAG_TXTR: u32 = 0x52545854;

/// The tag `PATH`, read as a number: the path list.
pub const TAG_PATH: u32 = 0x48544150;

/// The tag `SPCL`, read as a number: the special points.
pub const TAG_SPCL: u32 = 0x4c435053;

/// The tag `EYE `, read as a number: the eye points.
pub const TAG_EYE: u32 = 0x20455945;

/// The tag `GPNT`, read as a number: the primary weapon banks.
pub const TAG_GPNT: u32 = 0x544e5047;

/// The tag `MPNT`, read as a number: the secondary weapon banks.
pub const TAG_MPNT: u32 = 0x544e504d;

/// The tag `TGUN`, read as a number: gun turrets.
pub const TAG_TGUN: u32 = 0x4e554754;

/// The tag `TMIS`, read as a number: missile turrets.
pub const TAG_TMIS: u32 = 0x53494d54;

/// The tag `FUEL`, read as a number: the thruster banks.
pub const TAG_FUEL: u32 = 0x4c455546;

/// The tag `GLOW`, read as a number: the glow banks.
pub const TAG_GLOW: u32 = 0x574f4c47;

/// The tag `ACEN`, read as a number: the visual centre.
pub const TAG_ACEN: u32 = 0x4e454341;

/// The tag `DOCK`, read as a number: the docking bays.
pub const TAG_DOCK: u32 = 0x4b434f44;

/// The tag `INSG`, read as a number: the insignias.
pub const TAG_INSG: u32 = 0x47534e49;

/// The tag `SHLD`, read as a number: the shield mesh.
pub const TAG_SHLD: u32 = 0x444c4853;

/// The tag `SLDC`, read as a number: the shield tree, narrow tags.
pub const TAG_SLDC: u32 = 0x43444c53;

/// The tag `SLC2`, read as a number: the shield tree, wide tags.
pub const TAG_SLC2: u32 = 0x32434c53;

/// The tag `PINF`, read as a number: the comment block.
pub const TAG_PINF: u32 = 0x464e4950;

/// What a chunk handler yields in the grammar: the state behind the
/// chunk and the position behind it.
pub type Step = Result<(SpecParseState, int), DecodeError>;

/// An executable chunk handler agrees with the grammar's.
pub open spec fn stepped(r: Result<(ParseState, usize), DecodeError>, g: Step) -> bool {
    match r {
        Ok((st, p)) => g == Ok::<(SpecParseState, int), DecodeError>((st.deep_view(), p as int)),
        Err(e) => g == Err::<(SpecParseState, int), DecodeError>(e),
    }
}

/// The error of a chunk that came twice.
pub open spec fn duplicate() -> DecodeError {
    DecodeError::StructuralViolation(Violation::DuplicateChunk)
}

/// The chunk of the textures. It may come once.
pub open spec fn spec_chunk_txtr(st: SpecParseState, s: Seq<u8>, pos: int, v: Version) -> Step {
    if st.textures is Some {
        Err(duplicate())
    } else {
        match <Vec<Text> as Record>::parse(s, pos, v) {
            Err(e) => Err(e),
            Ok((x, p)) => Ok((SpecParseState { textures: Some(x), ..st }, p)),
        }
    }
}

fn chunk_txtr(st: ParseState, buf: &[u8], pos: usize, v: Version) -> (r: Result<
    (ParseState, usize),
    DecodeError,
>)
    ensures
        stepped(r, spec_chunk_txtr(st.deep_view(), buf@, pos as int, v)),
{
    let mut st = st;
    if st.textures.is_some() {
        return Err(DecodeError::StructuralViolation(Violation::DuplicateChunk));
    }
    let (x, p) = <Vec<Text> as Record>::read(buf, pos, v)?;
    st.textures = Some(x);
    Ok((st, p))
}

/// The chunk of the paths. It may come once.
pub open spec fn spec_chunk_path(st: SpecParseState, s: Seq<u8>, pos: int, v: Version) -> Step {
    if st.paths is Some {
        Err(duplicate())
    } else {
        match <Vec<Path> as Record>::parse(s, pos, v) {
            Err(e) => Err(e),
            Ok((x, p)) => Ok((SpecParseState { paths: Some(x), ..st }, p)),
        }
    }
}

fn chunk_path(st: ParseState, buf: &[u8], pos: usize, v: Version) -> (r: Result<
    (ParseState, usize),
    DecodeError,
>)
    ensures
        stepped(r, spec_chunk_path(st.deep_view(), buf@, pos as int, v)),
{
    let mut st = st;
    if st.paths.is_some() {
        return Err(DecodeError::StructuralViolation(Violation::DuplicateChunk));
    }
    let (x, p) = <Vec<Path> as Record>::read(buf, pos, v)?;
    st.paths = Some(x);
    Ok((st, p))
}

/// The chunk of the special points. It may come once.
pub open spec fn spec_chunk_spcl(st: SpecParseState, s: Seq<u8>, pos: int, v: Version) -> Step {
    if st.special_points is Some {
        Err(duplicate())
    } else {
        match <Vec<SpecialPoint> as Record>::parse(s, pos, v) {
            Err(e) => Err(e),
            Ok((x, p)) => Ok((SpecParseState { special_points: Some(x), ..st }, p)),
        }
    }
}

fn chunk_spcl(st: ParseState, buf: &[u8], pos: usize, v: Version) -> (r: Result<
    (ParseState, usize),
    DecodeError,
>)
    ensures
        stepped(r, spec_chunk_spcl(st.deep_view(), buf@, pos as int, v)),
{
    let mut st = st;
    if st.special_points.is_some() {
        return Err(DecodeError::StructuralViolation(Violation::DuplicateChunk));
    }
    let (x, p) = <Vec<SpecialPoint> as Record>::read(buf, pos, v)?;
    st.special_points = Some(x);
    Ok((st, p))
}

/// The chunk of the eye points. A later one replaces an earlier one.
pub open spec fn spec_chunk_eye(st: SpecParseState, s: Seq<u8>, pos: int, v: Version) -> Step {
    match <Vec<EyePoint> as Record>::parse(s, pos, v) {
        Err(e) => Err(e),
        Ok((x, p)) => Ok((SpecParseState { eye_points: Some(x), ..st }, p)),
    }
}

fn chunk_eye(st: ParseState, buf: &[u8], pos: usize, v: Version) -> (r: Result<
    (ParseState, usize),
    DecodeError,
>)
    ensures
        stepped(r, spec_chunk_eye(st.deep_view(), buf@, pos as int, v)),
{
    let mut st = st;
    let (x, p) = <Vec<EyePoint> as Record>::read(buf, pos, v)?;
    st.eye_points = Some(x);
    Ok((st, p))
}

/// The chunk of the primary weapon banks. It may come once.
pub open spec fn spec_chunk_gpnt(st: SpecParseState, s: Seq<u8>, pos: int, v: Version) -> Step {
    if st.primary_weps is Some {
        Err(duplicate())
    } else {
        match <Vec<Vec<WeaponHardpoint>> as Record>::parse(s, pos, v) {
            Err(e) => Err(e),
            Ok((x, p)) => Ok((SpecParseState { primary_weps: Some(x), ..st }, p)),
        }
    }
}

fn chunk_gpnt(st: ParseState, buf: &[u8], pos: usize, v: Version) -> (r: Result<
    (ParseState, usize),
    DecodeError,
>)
    ensures
        stepped(r, spec_chunk_gpnt(st.deep_view(), buf@, pos as int, v)),
{
    let mut st = st;
    if st.primary_weps.is_some() {
        return Err(DecodeError::StructuralViolation(Violation::DuplicateChunk));
    }
    let (x, p) = <Vec<Vec<WeaponHardpoint>> as Record>::read(buf, pos, v)?;
    st.primary_weps = Some(x);
    Ok((st, p))
}

/// The chunk of the secondary weapon banks. It may come once.
pub open spec fn spec_chunk_mpnt(st: SpecParseState, s: Seq<u8>, pos: int, v: Version) -> Step {
    if st.secondary_weps is Some {
        Err(duplicate())
    } else {
        match <Vec<Vec<WeaponHardpoint>> as Record>::parse(s, pos, v) {
            Err(e) => Err(e),
            Ok((x, p)) => Ok((SpecParseState { secondary_weps: Some(x), ..st }, p)),
        }
    }
}

fn chunk_mpnt(st: ParseState, buf: &[u8], pos: usize, v: Version) -> (r: Result<
    (ParseState, usize),
    DecodeError,
>)
    ensures
        stepped(r, spec_chunk_mpnt(st.deep_view(), buf@, pos as int, v)),
{
    let mut st = st;
    if st.secondary_weps.is_some() {
        return Err(DecodeError::StructuralViolation(Violation::DuplicateChunk));
    }
    let (x, p) = <Vec<Vec<WeaponHardpoint>> as Record>::read(buf, pos, v)?;
    st.secondary_weps = Some(x);
    Ok((st, p))
}

/// The chunk of the thruster banks. It may come once.
pub open spec fn spec_chunk_fuel(st: SpecParseState, s: Seq<u8>, pos: int, v: Version) -> Step {
    if st.thruster_banks is Some {
        Err(duplicate())
    } else {
        match <Vec<ThrusterBank> as Record>::parse(s, pos, v) {
            Err(e) => Err(e),
            Ok((x, p)) => Ok((SpecParseState { thruster_banks: Some(x), ..st }, p)),
        }
    }
}

fn chunk_fuel(st: ParseState, buf: &[u8], pos: usize, v: Version) -> (r: Result<
    (ParseState, usize),
    DecodeError,
>)
    ensures
        stepped(r, spec_chunk_fuel(st.deep_view(), buf@, pos as int, v)),
{
    let mut st = st;
    if st.thruster_banks.is_some() {
        return Err(DecodeError::StructuralViolation(Violation::DuplicateChunk));
    }
    let (x, p) = <Vec<ThrusterBank> as Record>::read(buf, pos, v)?;
    st.thruster_banks = Some(x);
    Ok((st, p))
}

/// The chunk of the glow banks. It may come once.
pub open spec fn spec_chunk_glow(st: SpecParseState, s: Seq<u8>, pos: int, v: Version) -> Step {
    if st.glow_banks is Some {
        Err(duplicate())
    } else {
        match <Vec<GlowPointBank> as Record>::parse(s, pos, v) {
            Err(e) => Err(e),
            Ok((x, p)) => Ok((SpecParseState { glow_banks: Some(x), ..st }, p)),
        }
    }
}

fn chunk_glow(st: ParseState, buf: &[u8], pos: usize, v: Version) -> (r: Result<
    (ParseState, usize),
    DecodeError,
>)
    ensures
        stepped(r, spec_chunk_glow(st.deep_view(), buf@, pos as int, v)),
{
    let mut st = st;
    if st.glow_banks.is_some() {
        return Err(DecodeError::StructuralViolation(Violation::DuplicateChunk));
    }
    let (x, p) = <Vec<GlowPointBank> as Record>::read(buf, pos, v)?;
    st.glow_banks = Some(x);
    Ok((st, p))
}

/// The chunk of the visual centre. It may come once.
pub open spec fn spec_chunk_acen(st: SpecParseState, s: Seq<u8>, pos: int, v: Version) -> Step {
    if st.visual_center is Some {
        Err(duplicate())
    } else {
        match <Vec3d as Record>::parse(s, pos, v) {
            Err(e) => Err(e),
            Ok((x, p)) => Ok((SpecParseState { visual_center: Some(x), ..st }, p)),
        }
    }
}

fn chunk_acen(st: ParseState, buf: &[u8], pos: usize, v: Version) -> (r: Result<
    (ParseState, usize),
    DecodeError,
>)
    ensures
        stepped(r, spec_chunk_acen(st.deep_view(), buf@, pos as int, v)),
{
    let mut st = st;
    if st.visual_center.is_some() {
        return Err(DecodeError::StructuralViolation(Violation::DuplicateChunk));
    }
    let (x, p) = <Vec3d as Record>::read(buf, pos, v)?;
    st.visual_center = Some(x);
    Ok((st, p))
}

/// The chunk of the docking bays. It may come once.
pub open spec fn spec_chunk_dock(st: SpecParseState, s: Seq<u8>, pos: int, v: Version) -> Step {
    if st.dock_points is Some {
        Err(duplicate())
    } else {
        match <Vec<Dock> as Record>::parse(s, pos, v) {
            Err(e) => Err(e),
            Ok((x, p)) => Ok((SpecParseState { dock_points: Some(x), ..st }, p)),
        }
    }
}

fn chunk_dock(st: ParseState, buf: &[u8], pos: usize, v: Version) -> (r: Result<
    (ParseState, usize),
    DecodeError,
>)
    ensures
        stepped(r, spec_chunk_dock(st.deep_view(), buf@, pos as int, v)),
{
    let mut st = st;
    if st.dock_points.is_some() {
        return Err(DecodeError::StructuralViolation(Violation::DuplicateChunk));
    }
    let (x, p) = <Vec<Dock> as Record>::read(buf, pos, v)?;
    st.dock_points = Some(x);
    Ok((st, p))
}

/// The chunk of the insignias. It may come once.
pub open spec fn spec_chunk_insg(st: SpecParseState, s: Seq<u8>, pos: int, v: Version) -> Step {
    if st.insignias is Some {
        Err(duplicate())
    } else {
        match <Vec<Insignia> as Record>::parse(s, pos, v) {
            Err(e) => Err(e),
            Ok((x, p)) => Ok((SpecParseState { insignias: Some(x), ..st }, p)),
        }
    }
}

fn chunk_insg(st: ParseState, buf: &[u8], pos: usize, v: Version) -> (r: Result<
    (ParseState, usize),
    DecodeError,
>)
    ensures
        stepped(r, spec_chunk_insg(st.deep_view(), buf@, pos as int, v)),
{
    let mut st = st;
    if st.insignias.is_some() {
        return Err(DecodeError::StructuralViolation(Violation::DuplicateChunk));
    }
    let (x, p) = <Vec<Insignia> as Record>::read(buf, pos, v)?;
    st.insignias = Some(x);
    Ok((st, p))
}
/// A table of `n` empty slots.
pub open spec fn empty_slots(n: int) -> Seq<Option<SpecSubObject>> {
    Seq::new(n as nat, |i: int| None::<SpecSubObject>)
}

/// The header chunk. It may come once, under the tag of the revision's
/// layout. It sets up the subobject table, one empty slot for each
/// subobject the header counts.
pub open spec fn spec_chunk_ohdr(st: SpecParseState, s: Seq<u8>, pos: int, tag: u32, v: Version) -> Step {
    if st.header is Some {
        Err(duplicate())
    } else if v.current_layout() != (tag == TAG_HDR2) {
        Err(DecodeError::StructuralViolation(Violation::TagVersionMismatch))
    } else {
        match spec_header_chunk(s, pos, v) {
            Err(e) => Err(e),
            Ok(((h, debris), p)) => Ok(
                (
                    SpecParseState {
                        header: Some(h),
                        debris,
                        sub_objects: empty_slots(h.num_subobjects as int),
                        ..st
                    },
                    p,
                ),
            ),
        }
    }
}

fn make_slots(n: u32) -> (r: Vec<Option<SubObject>>)
    ensures
        r.deep_view() == empty_slots(n as int),
{
    let mut r: Vec<Option<SubObject>> = Vec::new();
    let mut i: u32 = 0;
    while i < n
        invariant
            i <= n,
            r@.len() == i,
            forall|j: int| 0 <= j < i ==> (#[trigger] r@[j]) is None,
        decreases n - i,
    {
        r.push(None);
        i += 1;
    }
    assert(r.deep_view() =~= empty_slots(n as int));
    r
}

fn chunk_ohdr(st: ParseState, buf: &[u8], pos: usize, tag: u32, v: Version) -> (r: Result<
    (ParseState, usize),
    DecodeError,
>)
    ensures
        stepped(r, spec_chunk_ohdr(st.deep_view(), buf@, pos as int, tag, v)),
{
    let mut st = st;
    if st.header.is_some() {
        return Err(DecodeError::StructuralViolation(Violation::DuplicateChunk));
    }
    if v.current_layout() != (tag == TAG_HDR2) {
        return Err(DecodeError::StructuralViolation(Violation::TagVersionMismatch));
    }
    let (h, debris, p) = read_header_chunk(buf, pos, v)?;
    st.sub_objects = make_slots(h.num_subobjects);
    st.header = Some(h);
    st.debris = debris;
    Ok((st, p))
}

/// Where a subobject goes in the table: its parent, if it names one,
/// has to be in a slot already; its own slot has to be there and empty.
pub open spec fn spec_place(slots: Seq<Option<SpecSubObject>>, o: SpecSubObject) -> Result<
    Seq<Option<SpecSubObject>>,
    DecodeError,
> {
    if o.parent is Some && o.parent->Some_0.0 >= slots.len() {
        Err(DecodeError::StructuralViolation(Violation::ObjectOutOfRange))
    } else if o.parent is Some && slots[o.parent->Some_0.0 as int] is None {
        Err(DecodeError::StructuralViolation(Violation::ParentOutOfOrder))
    } else if o.obj_id.0 >= slots.len() {
        Err(DecodeError::StructuralViolation(Violation::ObjectOutOfRange))
    } else if slots[o.obj_id.0 as int] is Some {
        Err(duplicate())
    } else {
        Ok(slots.update(o.obj_id.0 as int, Some(o)))
    }
}

/// A subobject chunk. It has to come behind the header, under the tag of
/// the revision's layout.
pub open spec fn spec_chunk_subobject(
    st: SpecParseState,
    s: Seq<u8>,
    pos: int,
    tag: u32,
    v: Version,
    side: Side,
) -> Step {
    if st.header is None {
        Err(DecodeError::StructuralViolation(Violation::MissingHeader))
    } else if v.current_layout() != (tag == TAG_OBJ2) {
        Err(DecodeError::StructuralViolation(Violation::TagVersionMismatch))
    } else {
        match spec_subobject(s, pos, v, side) {
            Err(e) => Err(e),
            Ok((o, p)) => match spec_place(st.sub_objects, o) {
                Err(e) => Err(e),
                Ok(slots) => Ok((SpecParseState { sub_objects: slots, ..st }, p)),
            },
        }
    }
}

fn place(slots: Vec<Option<SubObject>>, o: SubObject) -> (r: Result<
    Vec<Option<SubObject>>,
    DecodeError,
>)
    ensures
        match r {
            Ok(x) => spec_place(slots.deep_view(), o.deep_view()) == Ok::<
                Seq<Option<SpecSubObject>>,
                DecodeError,
            >(x.deep_view()),
            Err(e) => spec_place(slots.deep_view(), o.deep_view()) == Err::<
                Seq<Option<SpecSubObject>>,
                DecodeError,
            >(e),
        },
{
    let mut slots = slots;
    let ghost sv = slots.deep_view();
    match o.parent {
        Some(pid) => {
            if pid.0 as usize >= slots.len() {
                return Err(DecodeError::StructuralViolation(Violation::ObjectOutOfRange));
            }
            assert(sv[pid.0 as int] == slots@[pid.0 as int].deep_view());
            if slots[pid.0 as usize].is_none() {
                return Err(DecodeError::StructuralViolation(Violation::ParentOutOfOrder));
            }
        },
        None => {},
    }
    let id = o.obj_id.0 as usize;
    if id >= slots.len() {
        return Err(DecodeError::StructuralViolation(Violation::ObjectOutOfRange));
    }
    assert(sv[id as int] == slots@[id as int].deep_view());
    if slots[id].is_some() {
        return Err(DecodeError::StructuralViolation(Violation::DuplicateChunk));
    }
    let ghost ov = o.deep_view();
    slots.set(id, Some(o));
    assert(slots.deep_view() =~= sv.update(id as int, Some(ov)));
    Ok(slots)
}

fn chunk_subobject<F: Fn(Vec3d, Vec3d, &Vec<Vec3d>) -> bool>(
    st: ParseState,
    buf: &[u8],
    pos: usize,
    tag: u32,
    v: Version,
    in_front: &F,
) -> (r: Result<(ParseState, usize), DecodeError>)
    requires
        classifier_ok(in_front),
    ensures
        stepped(r, spec_chunk_subobject(st.deep_view(), buf@, pos as int, tag, v, side_of(in_front))),
{
    let mut st = st;
    if st.header.is_none() {
        return Err(DecodeError::StructuralViolation(Violation::MissingHeader));
    }
    if v.current_layout() != (tag == TAG_OBJ2) {
        return Err(DecodeError::StructuralViolation(Violation::TagVersionMismatch));
    }
    let (o, p) = read_subobject(buf, pos, v, in_front)?;
    let mut slots: Vec<Option<SubObject>> = Vec::new();
    std::mem::swap(&mut slots, &mut st.sub_objects);
    st.sub_objects = place(slots, o)?;
    Ok((st, p))
}

/// Whether both subobjects of a turret are in their slots.
pub open spec fn turret_placed(t: SpecTurret, slots: Seq<Option<SpecSubObject>>) -> bool {
    &&& t.base_obj.0 < slots.len()
    &&& slots[t.base_obj.0 as int] is Some
    &&& t.gun_obj.0 < slots.len()
    &&& slots[t.gun_obj.0 as int] is Some
}

/// Whether every turret stands on subobjects that are in their slots.
pub open spec fn turrets_placed(ts: Seq<SpecTurret>, slots: Seq<Option<SpecSubObject>>) -> bool {
    forall|i: int| 0 <= i < ts.len() ==> turret_placed(#[trigger] ts[i], slots)
}

/// A turret chunk. Its turrets are added to those read before. Every
/// turret has to stand on subobjects that have been read.
pub open spec fn spec_chunk_turrets(st: SpecParseState, s: Seq<u8>, pos: int, v: Version) -> Step {
    match spec_list::<Turret>(s, pos, v) {
        Err(e) => Err(e),
        Ok((ts, p)) => if !turrets_placed(ts, st.sub_objects) {
            Err(DecodeError::StructuralViolation(Violation::TurretOutOfOrder))
        } else {
            Ok((SpecParseState { turrets: st.turrets + ts, ..st }, p))
        },
    }
}

fn check_turrets(ts: &Vec<Turret>, slots: &Vec<Option<SubObject>>) -> (r: bool)
    ensures
        r == turrets_placed(ts.deep_view(), slots.deep_view()),
{
    let mut i: usize = 0;
    while i < ts.len()
        invariant
            i <= ts@.len(),
            forall|j: int| 0 <= j < i ==> turret_placed(#[trigger] ts.deep_view()[j], slots.deep_view()),
        decreases ts@.len() - i,
    {
        let t = &ts[i];
        assert(ts.deep_view()[i as int] == t.deep_view());
        let b = t.base_obj.0 as usize;
        let g = t.gun_obj.0 as usize;
        if b >= slots.len() || g >= slots.len() {
            return false;
        }
        assert(slots.deep_view()[b as int] == slots@[b as int].deep_view());
        assert(slots.deep_view()[g as int] == slots@[g as int].deep_view());
        if slots[b].is_none() || slots[g].is_none() {
            return false;
        }
        i += 1;
    }
    true
}

fn chunk_turrets(st: ParseState, buf: &[u8], pos: usize, v: Version) -> (r: Result<
    (ParseState, usize),
    DecodeError,
>)
    ensures
        stepped(r, spec_chunk_turrets(st.deep_view(), buf@, pos as int, v)),
{
    let mut st = st;
    let (mut ts, p) = read_list::<Turret>(buf, pos, v)?;
    if !check_turrets(&ts, &st.sub_objects) {
        return Err(DecodeError::StructuralViolation(Violation::TurretOutOfOrder));
    }
    let ghost before = st.turrets.deep_view();
    let ghost added = ts.deep_view();
    st.turrets.append(&mut ts);
    assert(st.turrets.deep_view() =~= before + added);
    Ok((st, p))
}

/// The shield mesh: its vertices and its triangles. It may come once.
pub open spec fn spec_chunk_shield(st: SpecParseState, s: Seq<u8>, pos: int, v: Version) -> Step {
    if st.shield_verts is Some {
        Err(duplicate())
    } else {
        match spec_list::<Vec3d>(s, pos, v) {
            Err(e) => Err(e),
            Ok((verts, p1)) => match spec_list::<ShieldPolygon>(s, p1, v) {
                Err(e) => Err(e),
                Ok((polygons, p2)) => Ok(
                    (
                        SpecParseState {
                            shield_verts: Some(verts),
                            shield_polygons: Some(polygons),
                            ..st
                        },
                        p2,
                    ),
                ),
            },
        }
    }
}

fn chunk_shield(st: ParseState, buf: &[u8], pos: usize, v: Version) -> (r: Result<
    (ParseState, usize),
    DecodeError,
>)
    ensures
        stepped(r, spec_chunk_shield(st.deep_view(), buf@, pos as int, v)),
{
    let mut st = st;
    if st.shield_verts.is_some() {
        return Err(DecodeError::StructuralViolation(Violation::DuplicateChunk));
    }
    let (verts, p) = read_list::<Vec3d>(buf, pos, v)?;
    let (polygons, p) = read_list::<ShieldPolygon>(buf, p, v)?;
    st.shield_verts = Some(verts);
    st.shield_polygons = Some(polygons);
    Ok((st, p))
}

/// The shield tree: a buffer that is kept as it is until the mesh is
/// known. It may come once, under the tag of the revision's tag width.
pub open spec fn spec_chunk_shield_tree(
    st: SpecParseState,
    s: Seq<u8>,
    pos: int,
    tag: u32,
    v: Version,
) -> Step {
    if st.shield_tree_chunk is Some {
        Err(duplicate())
    } else if v.wide_shield_tags() != (tag == TAG_SLC2) {
        Err(DecodeError::StructuralViolation(Violation::TagVersionMismatch))
    } else {
        match spec_byte_buffer(s, pos) {
            Err(e) => Err(e),
            Ok((b, p)) => Ok((SpecParseState { shield_tree_chunk: Some(b), ..st }, p)),
        }
    }
}

fn chunk_shield_tree(st: ParseState, buf: &[u8], pos: usize, tag: u32, v: Version) -> (r: Result<
    (ParseState, usize),
    DecodeError,
>)
    ensures
        stepped(r, spec_chunk_shield_tree(st.deep_view(), buf@, pos as int, tag, v)),
{
    let mut st = st;
    if st.shield_tree_chunk.is_some() {
        return Err(DecodeError::StructuralViolation(Violation::DuplicateChunk));
    }
    if v.wide_shield_tags() != (tag == TAG_SLC2) {
        return Err(DecodeError::StructuralViolation(Violation::TagVersionMismatch));
    }
    let (b, p) = read_byte_buffer(buf, pos)?;
    st.shield_tree_chunk = Some(b);
    Ok((st, p))
}

/// The comment block: as many bytes as the chunk is long, of which those
/// before the first NUL are the comment. It may come once.
pub open spec fn spec_chunk_comments(st: SpecParseState, s: Seq<u8>, pos: int, len: u32) -> Step {
    if st.comments is Some {
        Err(duplicate())
    } else {
        match spec_bytes(s, pos, len as int) {
            Err(e) => Err(e),
            Ok((b, p)) => Ok((SpecParseState { comments: Some(until_nul(b)), ..st }, p)),
        }
    }
}

fn chunk_comments(st: ParseState, buf: &[u8], pos: usize, len: u32) -> (r: Result<
    (ParseState, usize),
    DecodeError,
>)
    ensures
        stepped(r, spec_chunk_comments(st.deep_view(), buf@, pos as int, len)),
{
    let mut st = st;
    if st.comments.is_some() {
        return Err(DecodeError::StructuralViolation(Violation::DuplicateChunk));
    }
    let (mut b, p) = read_bytes(buf, pos, len as usize)?;
    let ghost full = b@;
    assert(b.deep_view() =~= b@);
    let mut end: usize = 0;
    while end < b.len() && b[end] != 0
        invariant
            b@ == full,
            end <= b.len(),
            crate::bytes::nul_index(full, 0) == crate::bytes::nul_index(full, end as int),
        decreases b.len() - end,
    {
        end += 1;
    }
    b.truncate(end);
    assert(b@ =~= until_nul(full));
    st.comments = Some(Text { bytes: b });
    Ok((st, p))
}

/// A chunk with a tag that is not known: its payload is passed over.
pub open spec fn spec_chunk_unknown(st: SpecParseState, s: Seq<u8>, pos: int, len: u32) -> Step {
    if has_bytes(s, pos, len as int) {
        Ok((st, pos + len))
    } else {
        Err(DecodeError::TruncatedChunk)
    }
}

/// The chunk with the given tag and length whose payload begins at `pos`.
#[verifier::opaque]
pub open spec fn spec_chunk(
    st: SpecParseState,
    s: Seq<u8>,
    pos: int,
    tag: u32,
    len: u32,
    v: Version,
    side: Side,
) -> Step {
    if tag == TAG_OHDR || tag == TAG_HDR2 {
        spec_chunk_ohdr(st, s, pos, tag, v)
    } else if tag == TAG_SOBJ || tag == TAG_OBJ2 {
        spec_chunk_subobject(st, s, pos, tag, v, side)
    } else if tag == TAG_TXTR {
        spec_chunk_txtr(st, s, pos, v)
    } else if tag == TAG_PATH {
        spec_chunk_path(st, s, pos, v)
    } else if tag == TAG_SPCL {
        spec_chunk_spcl(st, s, pos, v)
    } else if tag == TAG_EYE {
        spec_chunk_eye(st, s, pos, v)
    } else if tag == TAG_GPNT {
        spec_chunk_gpnt(st, s, pos, v)
    } else if tag == TAG_MPNT {
        spec_chunk_mpnt(st, s, pos, v)
    } else if tag == TAG_TGUN || tag == TAG_TMIS {
        spec_chunk_turrets(st, s, pos, v)
    } else if tag == TAG_FUEL {
        spec_chunk_fuel(st, s, pos, v)
    } else if tag == TAG_GLOW {
        spec_chunk_glow(st, s, pos, v)
    } else if tag == TAG_ACEN {
        spec_chunk_acen(st, s, pos, v)
    } else if tag == TAG_DOCK {
        spec_chunk_dock(st, s, pos, v)
    } else if tag == TAG_INSG {
        spec_chunk_insg(st, s, pos, v)
    } else if tag == TAG_SHLD {
        spec_chunk_shield(st, s, pos, v)
    } else if tag == TAG_SLDC || tag == TAG_SLC2 {
        spec_chunk_shield_tree(st, s, pos, tag, v)
    } else if tag == TAG_PINF {
        spec_chunk_comments(st, s, pos, len)
    } else {
        spec_chunk_unknown(st, s, pos, len)
    }
}

fn parse_chunk<F: Fn(Vec3d, Vec3d, &Vec<Vec3d>) -> bool>(
    st: ParseState,
    buf: &[u8],
    pos: usize,
    tag: u32,
    len: u32,
    v: Version,
    in_front: &F,
) -> (r: Result<(ParseState, usize), DecodeError>)
    requires
        classifier_ok(in_front),
    ensures
        stepped(r, spec_chunk(st.deep_view(), buf@, pos as int, tag, len, v, side_of(in_front))),
{
    reveal(spec_chunk);
    if tag == TAG_OHDR || tag == TAG_HDR2 {
        chunk_ohdr(st, buf, pos, tag, v)
    } else if tag == TAG_SOBJ || tag == TAG_OBJ2 {
        chunk_subobject(st, buf, pos, tag, v, in_front)
    } else if tag == TAG_TXTR {
        chunk_txtr(st, buf, pos, v)
    } else if tag == TAG_PATH {
        chunk_path(st, buf, pos, v)
    } else if tag == TAG_SPCL {
        chunk_spcl(st, buf, pos, v)
    } else if tag == TAG_EYE {
        chunk_eye(st, buf, pos, v)
    } else if tag == TAG_GPNT {
        chunk_gpnt(st, buf, pos, v)
    } else if tag == TAG_MPNT {
        chunk_mpnt(st, buf, pos, v)
    } else if tag == TAG_TGUN || tag == TAG_TMIS {
        chunk_turrets(st, buf, pos, v)
    } else if tag == TAG_FUEL {
        chunk_fuel(st, buf, pos, v)
    } else if tag == TAG_GLOW {
        chunk_glow(st, buf, pos, v)
    } else if tag == TAG_ACEN {
        chunk_acen(st, buf, pos, v)
    } else if tag == TAG_DOCK {
        chunk_dock(st, buf, pos, v)
    } else if tag == TAG_INSG {
        chunk_insg(st, buf, pos, v)
    } else if tag == TAG_SHLD {
        chunk_shield(st, buf, pos, v)
    } else if tag == TAG_SLDC || tag == TAG_SLC2 {
        chunk_shield_tree(st, buf, pos, tag, v)
    } else if tag == TAG_PINF {
        chunk_comments(st, buf, pos, len)
    } else {
        if pos > buf.len() || buf.len() - pos < len as usize {
            return Err(DecodeError::TruncatedChunk);
        }
        Ok((st, pos + len as usize))
    }
}

/// The chunks from `pos` on, up to the end of the bytes. The bytes may
/// end in front of a tag and nowhere else.
#[verifier::opaque]
pub open spec fn spec_chunks(st: SpecParseState, s: Seq<u8>, pos: int, v: Version, side: Side) -> Result<
    SpecParseState,
    DecodeError,
>
    decreases s.len() - pos,
{
    if pos >= s.len() {
        Ok(st)
    } else {
        match spec_u32(s, pos) {
            Err(e) => Err(e),
            Ok((tag, p1)) => match spec_u32(s, p1) {
                Err(e) => Err(e),
                Ok((len, p2)) => match spec_chunk(st, s, p2, tag, len, v, side) {
                    Err(e) => Err(e),
                    Ok((st2, p3)) => if p3 <= pos || p3 > s.len() {
                        Err(DecodeError::TruncatedChunk)
                    } else {
                        spec_chunks(st2, s, p3, v, side)
                    },
                },
            },
        }
    }
}

/// The model that the chunks from `pos` on make up.
pub open spec fn spec_model(s: Seq<u8>, pos: int, v: Version, side: Side) -> Result<
    SpecModel,
    DecodeError,
> {
    match spec_chunks(SpecParseState::start(), s, pos, v, side) {
        Err(e) => Err(e),
        Ok(st) => spec_finish(st, v),
    }
}

fn parse_chunks<F: Fn(Vec3d, Vec3d, &Vec<Vec3d>) -> bool>(
    buf: &[u8],
    pos: usize,
    v: Version,
    in_front: &F,
) -> (r: Result<ParseState, DecodeError>)
    requires
        classifier_ok(in_front),
    ensures
        decoded(r, spec_chunks(SpecParseState::start(), buf@, pos as int, v, side_of(in_front))),
{
    reveal(spec_chunks);
    let mut st = ParseState::start();
    let mut cur = pos;
    while cur < buf.len()
        invariant
            classifier_ok(in_front),
            spec_chunks(st.deep_view(), buf@, cur as int, v, side_of(in_front)) == spec_chunks(
                SpecParseState::start(),
                buf@,
                pos as int,
                v,
                side_of(in_front),
            ),
        decreases buf@.len() - cur,
    {
        proof {
            reveal(spec_chunks);
        }
        let (tag, p1) = read_u32(buf, cur)?;
        let (len, p2) = read_u32(buf, p1)?;
        let (st2, p3) = parse_chunk(st, buf, p2, tag, len, v, in_front)?;
        if p3 <= cur || p3 > buf.len() {
            return Err(DecodeError::TruncatedChunk);
        }
        st = st2;
        cur = p3;
    }
    Ok(st)
}

/// What stands at the start of a file: the magic and the number of a
/// known revision.
pub open spec fn spec_file_head(s: Seq<u8>) -> Result<Version, DecodeError> {
    match spec_u32(s, 0) {
        Err(e) => Err(e),
        Ok((magic, p)) => if magic != MAGIC {
            Err(DecodeError::MalformedMagic)
        } else {
            match spec_i32(s, p) {
                Err(e) => Err(e),
                Ok((n, _)) => match Version::of_number(n as int) {
                    None => Err(DecodeError::UnsupportedVersion),
                    Some(v) => Ok(v),
                },
            }
        },
    }
}

/// The model that a file holds.
pub open spec fn spec_decode(s: Seq<u8>, side: Side) -> Result<SpecModel, DecodeError> {
    match spec_file_head(s) {
        Err(e) => Err(e),
        Ok(v) => spec_model(s, 8, v, side),
    }
}

/// A reader over the bytes of a file.
pub struct Parser {
    file: Vec<u8>,
    pos: usize,
    version: Version,
}

impl Parser {
    /// The bytes of the file.
    pub closed spec fn bytes(&self) -> Seq<u8> {
        self.file@
    }

    /// Where the reader stands.
    pub closed spec fn position(&self) -> int {
        self.pos as int
    }

    /// The revision of the file.
    pub closed spec fn spec_version(&self) -> Version {
        self.version
    }

    /// Opens a file: checks the magic and reads the version.
    pub fn new(file: Vec<u8>) -> (r: Result<Parser, DecodeError>)
        ensures
            match r {
                Ok(p) => spec_file_head(file@) == Ok::<Version, DecodeError>(p.spec_version())
                    && p.bytes() == file@ && p.position() == 8,
                Err(e) => spec_file_head(file@) == Err::<Version, DecodeError>(e),
            },
    {
        let (magic, p) = read_u32(file.as_slice(), 0)?;
        if magic != MAGIC {
            return Err(DecodeError::MalformedMagic);
        }
        let (n, p) = read_i32(file.as_slice(), p)?;
        match Version::from_i32(n) {
            None => Err(DecodeError::UnsupportedVersion),
            Some(version) => Ok(Parser { file, pos: p, version }),
        }
    }

    /// The revision of the file.
    pub fn version(&self) -> (v: Version)
        ensures
            v == self.spec_version(),
    {
        self.version
    }

    /// Reads the chunks from where the reader stands to the end of the
    /// file and makes the model of them. `in_front` is asked for the
    /// side of a plane on which a polygon lies, where a legacy leaf
    /// holds more than one polygon. Afterwards the reader stands at the
    /// end of the file.
    pub fn parse<F: Fn(Vec3d, Vec3d, &Vec<Vec3d>) -> bool>(&mut self, in_front: &F) -> (r: Result<
        Model,
        DecodeError,
    >)
        requires
            classifier_ok(in_front),
        ensures
            decoded(
                r,
                spec_model(
                    old(self).bytes(),
                    old(self).position(),
                    old(self).spec_version(),
                    side_of(in_front),
                ),
            ),
            final(self).bytes() == old(self).bytes(),
            final(self).spec_version() == old(self).spec_version(),
            final(self).position() == (if old(self).position() < old(self).bytes().len() {
                old(self).bytes().len() as int
            } else {
                old(self).position()
            }),
    {
        let start = self.pos;
        if start < self.file.len() {
            self.pos = self.file.len();
        }
        let st = parse_chunks(self.file.as_slice(), start, self.version, in_front)?;
        finish(st, self.version)
    }

    /// Where a read of the grammar `g` leaves the reader: behind the
    /// value if there is one, and where it stood if there is none.
    pub open spec fn advanced<T>(&self, before: &Parser, g: Parsed<T>) -> bool {
        &&& self.bytes() == before.bytes()
        &&& self.spec_version() == before.spec_version()
        &&& self.position() == match g {
            Ok((_, p)) => p,
            Err(_) => before.position(),
        }
    }

    pub fn read_u32(&mut self) -> (r: Result<u32, DecodeError>)
        ensures
            answered(r, spec_u32(old(self).bytes(), old(self).position())),
            final(self).advanced(old(self), spec_u32(old(self).bytes(), old(self).position())),
    {
        let (x, p) = read_u32(self.file.as_slice(), self.pos)?;
        self.pos = p;
        Ok(x)
    }

    pub fn read_i32(&mut self) -> (r: Result<i32, DecodeError>)
        ensures
            answered(r, spec_i32(old(self).bytes(), old(self).position())),
            final(self).advanced(old(self), spec_i32(old(self).bytes(), old(self).position())),
    {
        let (x, p) = read_i32(self.file.as_slice(), self.pos)?;
        self.pos = p;
        Ok(x)
    }

    /// Reads `n` raw bytes.
    pub fn read_bytes(&mut self, n: usize) -> (r: Result<Vec<u8>, DecodeError>)
        ensures
            answered(r, spec_bytes(old(self).bytes(), old(self).position(), n as int)),
            final(self).advanced(
                old(self),
                spec_bytes(old(self).bytes(), old(self).position(), n as int),
            ),
    {
        let (x, p) = read_bytes(self.file.as_slice(), self.pos, n)?;
        self.pos = p;
        Ok(x)
    }

    /// Reads a length and that many bytes.
    pub fn read_byte_buffer(&mut self) -> (r: Result<Vec<u8>, DecodeError>)
        ensures
            answered(r, spec_byte_buffer(old(self).bytes(), old(self).position())),
            final(self).advanced(
                old(self),
                spec_byte_buffer(old(self).bytes(), old(self).position()),
            ),
    {
        let (x, p) = read_byte_buffer(self.file.as_slice(), self.pos)?;
        self.pos = p;
        Ok(x)
    }

    /// Reads a string: the bytes before its first NUL.
    pub fn read_string(&mut self) -> (r: Result<Vec<u8>, DecodeError>)
        ensures
            answered(r, spec_string(old(self).bytes(), old(self).position())),
            final(self).advanced(old(self), spec_string(old(self).bytes(), old(self).position())),
    {
        let (x, p) = read_string(self.file.as_slice(), self.pos)?;
        self.pos = p;
        Ok(x)
    }

    pub fn read_vec3d(&mut self) -> (r: Result<Vec3d, DecodeError>)
        ensures
            answered(r, spec_vec3d(old(self).bytes(), old(self).position())),
            final(self).advanced(old(self), spec_vec3d(old(self).bytes(), old(self).position())),
    {
        let (x, p) = read_vec3d(self.file.as_slice(), self.pos)?;
        self.pos = p;
        Ok(x)
    }

    pub fn read_bbox(&mut self) -> (r: Result<BoundingBox, DecodeError>)
        ensures
            answered(r, spec_bbox(old(self).bytes(), old(self).position())),
            final(self).advanced(old(self), spec_bbox(old(self).bytes(), old(self).position())),
    {
        let (x, p) = read_bbox(self.file.as_slice(), self.pos)?;
        self.pos = p;
        Ok(x)
    }

    /// Reads a count and that many records, in the layout of the file's
    /// revision.
    pub fn read_list<T: Record>(&mut self) -> (r: Result<Vec<T>, DecodeError>)
        ensures
            answered(
                r,
                spec_list::<T>(old(self).bytes(), old(self).position(), old(self).spec_version()),
            ),
            final(self).advanced(
                old(self),
                spec_list::<T>(old(self).bytes(), old(self).position(), old(self).spec_version()),
            ),
    {
        let (x, p) = read_list::<T>(self.file.as_slice(), self.pos, self.version)?;
        self.pos = p;
        Ok(x)
    }

    /// Reads `n` records, in the layout of the file's revision.
    pub fn read_list_n<T: Record>(&mut self, n: usize) -> (r: Result<Vec<T>, DecodeError>)
        ensures
            answered(
                r,
                spec_list_n::<T>(
                    old(self).bytes(),
                    old(self).position(),
                    n as nat,
                    old(self).spec_version(),
                ),
            ),
            final(self).advanced(
                old(self),
                spec_list_n::<T>(
                    old(self).bytes(),
                    old(self).position(),
                    n as nat,
                    old(self).spec_version(),
                ),
            ),
    {
        let (x, p) = read_list_n::<T>(self.file.as_slice(), self.pos, n, self.version)?;
        self.pos = p;
        Ok(x)
    }
}

/// A reader's answer agrees with the grammar's value.
pub open spec fn answered<T: DeepView>(r: Result<T, DecodeError>, g: Parsed<T::V>) -> bool {
    match r {
        Ok(x) => g is Ok && g->Ok_0.0 == x.deep_view(),
        Err(e) => g == Err::<(T::V, int), DecodeError>(e),
    }
}

/// Decodes a file.
pub fn decode<F: Fn(Vec3d, Vec3d, &Vec<Vec3d>) -> bool>(file: Vec<u8>, in_front: &F) -> (r: Result<
    Model,
    DecodeError,
>)
    requires
        classifier_ok(in_front),
    ensures
        decoded(r, spec_decode(file@, side_of(in_front))),
{
    let mut p = Parser::new(file)?;
    p.parse(in_front)
}

} // verus!
