//! Subobjects: the pieces of a model, each with its own tree.

use vstd::prelude::*;
use crate::bsp::{BspData, SpecBspData};
use crate::bsp_build::{classifier_ok, side_of, Side};
use crate::bsp_read::{parse_bsp_data, spec_bsp_data};
use crate::bsp_write::{bsp_data_bytes, bsp_data_encodable, write_bsp_data};
use crate::bytes::{
    has_bytes, i32_bytes, le_u32, parsed, read_byte_buffer, read_i32, read_string, read_u32,
    spec_byte_buffer, spec_i32, spec_string, spec_u32, string_bytes, string_encodable, u32_bytes,
    write_bytes, write_i32, write_string, write_u32, Parsed, Text,
};
use crate::error::{DecodeError, EncodeError, Violation};
use crate::geom::{
    bbox_bytes, read_bbox, read_vec3d, spec_bbox, spec_vec3d, vec3d_bytes, write_bbox, write_vec3d,
    BoundingBox, Vec3d,
};
use crate::ids::ObjectId;
use crate::version::Version;

verus! {

/// How a subobject moves.
#[derive(Clone, Copy, PartialEq, Eq, Debug, Hash, Structural)]
pub enum SubsysMovementType {
    NONE,
    POS,
    ROT,
    ROTSPECIAL,
    TRIGGERED,
    INTRINSICROTATE,
}

/// The axis a subobject moves about.
#[derive(Clone, Copy, PartialEq, Eq, Debug, Hash, Structural)]
pub enum SubsysMovementAxis {
    NONE,
    XAXIS,
    ZAXIS,
    YAXIS,
    OTHER,
}

impl SubsysMovementType {
    /// The number that stands for the movement type.
    pub open spec fn number(self) -> i32 {
        match self {
            SubsysMovementType::NONE => -1i32,
            SubsysMovementType::POS => 0,
            SubsysMovementType::ROT => 1,
            SubsysMovementType::ROTSPECIAL => 2,
            SubsysMovementType::TRIGGERED => 3,
            SubsysMovementType::INTRINSICROTATE => 4,
        }
    }

    /// The movement type a number stands for; a number that stands for
    /// none means no movement.
    pub open spec fn of_number(val: i32) -> SubsysMovementType {
        if val == 0 {
            SubsysMovementType::POS
        } else if val == 1 {
            SubsysMovementType::ROT
        } else if val == 2 {
            SubsysMovementType::ROTSPECIAL
        } else if val == 3 {
            SubsysMovementType::TRIGGERED
        } else if val == 4 {
            SubsysMovementType::INTRINSICROTATE
        } else {
            SubsysMovementType::NONE
        }
    }

    pub fn to_i32(self) -> (n: i32)
        ensures
            n == self.number(),
    {
        match self {
            SubsysMovementType::NONE => -1i32,
            SubsysMovementType::POS => 0,
            SubsysMovementType::ROT => 1,
            SubsysMovementType::ROTSPECIAL => 2,
            SubsysMovementType::TRIGGERED => 3,
            SubsysMovementType::INTRINSICROTATE => 4,
        }
    }
}

impl SubsysMovementAxis {
    /// The number that stands for the axis.
    pub open spec fn number(self) -> i32 {
        match self {
            SubsysMovementAxis::NONE => -1i32,
            SubsysMovementAxis::XAXIS => 0,
            SubsysMovementAxis::ZAXIS => 1,
            SubsysMovementAxis::YAXIS => 2,
            SubsysMovementAxis::OTHER => 3,
        }
    }

    /// The axis a number stands for; a number that stands for none means
    /// no axis.
    pub open spec fn of_number(val: i32) -> SubsysMovementAxis {
        if val == 0 {
            SubsysMovementAxis::XAXIS
        } else if val == 1 {
            SubsysMovementAxis::ZAXIS
        } else if val == 2 {
            SubsysMovementAxis::YAXIS
        } else if val == 3 {
            SubsysMovementAxis::OTHER
        } else {
            SubsysMovementAxis::NONE
        }
    }

    pub fn to_i32(self) -> (n: i32)
        ensures
            n == self.number(),
    {
        match self {
            SubsysMovementAxis::NONE => -1i32,
            SubsysMovementAxis::XAXIS => 0,
            SubsysMovementAxis::ZAXIS => 1,
            SubsysMovementAxis::YAXIS => 2,
            SubsysMovementAxis::OTHER => 3,
        }
    }
}

/// The movement type a number stands for.
pub fn parse_subsys_mov_type(val: i32) -> (r: SubsysMovementType)
    ensures
        r == SubsysMovementType::of_number(val),
{
    match val {
        -1 => SubsysMovementType::NONE,
        0 => SubsysMovementType::POS,
        1 => SubsysMovementType::ROT,
        2 => SubsysMovementType::ROTSPECIAL,
        3 => SubsysMovementType::TRIGGERED,
        4 => SubsysMovementType::INTRINSICROTATE,
        _ => SubsysMovementType::NONE,
    }
}

/// The movement axis a number stands for.
pub fn parse_subsys_mov_axis(val: i32) -> (r: SubsysMovementAxis)
    ensures
        r == SubsysMovementAxis::of_number(val),
{
    match val {
        -1 => SubsysMovementAxis::NONE,
        0 => SubsysMovementAxis::XAXIS,
        1 => SubsysMovementAxis::ZAXIS,
        2 => SubsysMovementAxis::YAXIS,
        3 => SubsysMovementAxis::OTHER,
        _ => SubsysMovementAxis::NONE,
    }
}

/// A number stands for the movement it was written for.
pub proof fn lemma_movement_numbers(t: SubsysMovementType, a: SubsysMovementAxis)
    ensures
        SubsysMovementType::of_number(t.number()) == t,
        SubsysMovementAxis::of_number(a.number()) == a,
{
}

/// A subobject.
#[derive(PartialEq, Eq, Debug)]
pub struct SubObject {
    pub obj_id: ObjectId,
    pub radius: u32,
    pub parent: Option<ObjectId>,
    pub offset: Vec3d,
    pub geo_center: Vec3d,
    pub bbox: BoundingBox,
    pub name: Text,
    pub properties: Text,
    pub movement_type: SubsysMovementType,
    pub movement_axis: SubsysMovementAxis,
    pub bsp_data: BspData,
    /// The subobjects that name this one as their parent, in the order of
    /// their ids. Derived from the parents once a model is whole.
    pub children: Vec<ObjectId>,
    /// Whether the header lists this subobject as debris.
    pub is_debris_model: bool,
}

/// What a [`SubObject`] holds.
pub struct SpecSubObject {
    pub obj_id: ObjectId,
    pub radius: u32,
    pub parent: Option<ObjectId>,
    pub offset: Vec3d,
    pub geo_center: Vec3d,
    pub bbox: BoundingBox,
    pub name: Seq<u8>,
    pub properties: Seq<u8>,
    pub movement_type: SubsysMovementType,
    pub movement_axis: SubsysMovementAxis,
    pub bsp_data: SpecBspData,
    pub children: Seq<ObjectId>,
    pub is_debris_model: bool,
}

impl DeepView for SubObject {
    type V = SpecSubObject;

    open spec fn deep_view(&self) -> SpecSubObject {
        SpecSubObject {
            obj_id: self.obj_id,
            radius: self.radius,
            parent: self.parent,
            offset: self.offset,
            geo_center: self.geo_center,
            bbox: self.bbox,
            name: self.name.deep_view(),
            properties: self.properties.deep_view(),
            movement_type: self.movement_type,
            movement_axis: self.movement_axis,
            bsp_data: self.bsp_data.deep_view(),
            children: self.children@,
            is_debris_model: self.is_debris_model,
        }
    }
}

/// The parent that a stored number names: all ones stands for none.
pub open spec fn parent_of(n: u32) -> Option<ObjectId> {
    if n == u32::MAX {
        None
    } else {
        Some(ObjectId(n))
    }
}

/// The number that is stored for a parent.
pub open spec fn parent_number(p: Option<ObjectId>) -> u32 {
    match p {
        None => u32::MAX,
        Some(id) => id.0,
    }
}

/// The radius, the parent and the offset of a subobject. The current
/// layout stores them in this order, the legacy one with the radius last.
pub open spec fn spec_subobject_lead(s: Seq<u8>, pos: int, v: Version) -> Parsed<(u32, u32, Vec3d)> {
    if !has_bytes(s, pos, 20) {
        Err(DecodeError::TruncatedChunk)
    } else if v.current_layout() {
        Ok(
            (
                (
                    le_u32(s.subrange(pos, pos + 4)),
                    le_u32(s.subrange(pos + 4, pos + 8)),
                    spec_vec3d(s, pos + 8)->Ok_0.0,
                ),
                pos + 20,
            ),
        )
    } else {
        Ok(
            (
                (
                    le_u32(s.subrange(pos + 16, pos + 20)),
                    le_u32(s.subrange(pos, pos + 4)),
                    spec_vec3d(s, pos + 4)->Ok_0.0,
                ),
                pos + 20,
            ),
        )
    }
}

/// The radius, the parent and the offset, in the order of the layout.
pub open spec fn subobject_lead_bytes(radius: u32, parent: u32, offset: Vec3d, v: Version) -> Seq<u8> {
    if v.current_layout() {
        u32_bytes(radius) + u32_bytes(parent) + vec3d_bytes(offset)
    } else {
        u32_bytes(parent) + vec3d_bytes(offset) + u32_bytes(radius)
    }
}

/// The two movement numbers and the number behind them, which has to be
/// zero.
pub open spec fn spec_movement(s: Seq<u8>, pos: int) -> Parsed<
    (SubsysMovementType, SubsysMovementAxis),
> {
    match spec_i32(s, pos) {
        Err(e) => Err(e),
        Ok((t, p1)) => match spec_i32(s, p1) {
            Err(e) => Err(e),
            Ok((a, p2)) => match spec_i32(s, p2) {
                Err(e) => Err(e),
                Ok((chunked, p3)) => if chunked != 0 {
                    Err(DecodeError::StructuralViolation(Violation::BadValue))
                } else {
                    Ok(((SubsysMovementType::of_number(t), SubsysMovementAxis::of_number(a)), p3))
                },
            },
        },
    }
}

/// The tree of a subobject: a length and a buffer of that length, which
/// is decoded by itself.
pub open spec fn spec_embedded_bsp(s: Seq<u8>, pos: int, v: Version, side: Side) -> Parsed<
    SpecBspData,
> {
    match spec_byte_buffer(s, pos) {
        Err(e) => Err(e),
        Ok((b, p)) => match spec_bsp_data(b, v, side) {
            Err(e) => Err(e),
            Ok(d) => Ok((d, p)),
        },
    }
}

/// The content of a subobject chunk. The children and the debris mark
/// are not stored with the subobject; they are left empty here.
#[verifier::opaque]
pub open spec fn spec_subobject(s: Seq<u8>, pos: int, v: Version, side: Side) -> Parsed<
    SpecSubObject,
> {
    match spec_u32(s, pos) {
        Err(e) => Err(e),
        Ok((id, p1)) => match spec_subobject_lead(s, p1, v) {
            Err(e) => Err(e),
            Ok(((radius, parent, offset), p2)) => match spec_vec3d(s, p2) {
                Err(e) => Err(e),
                Ok((geo_center, p3)) => match spec_bbox(s, p3) {
                    Err(e) => Err(e),
                    Ok((bbox, p4)) => match spec_string(s, p4) {
                        Err(e) => Err(e),
                        Ok((name, p5)) => match spec_string(s, p5) {
                            Err(e) => Err(e),
                            Ok((properties, p6)) => match spec_movement(s, p6) {
                                Err(e) => Err(e),
                                Ok(((movement_type, movement_axis), p7)) => match spec_embedded_bsp(
                                    s,
                                    p7,
                                    v,
                                    side,
                                ) {
                                    Err(e) => Err(e),
                                    Ok((bsp_data, p8)) => Ok(
                                        (
                                            SpecSubObject {
                                                obj_id: ObjectId(id),
                                                radius,
                                                parent: parent_of(parent),
                                                offset,
                                                geo_center,
                                                bbox,
                                                name,
                                                properties,
                                                movement_type,
                                                movement_axis,
                                                bsp_data,
                                                children: Seq::empty(),
                                                is_debris_model: false,
                                            },
                                            p8,
                                        ),
                                    ),
                                },
                            },
                        },
                    },
                },
            },
        },
    }
}

fn read_subobject_lead(buf: &[u8], pos: usize, v: Version) -> (r: Result<
    ((u32, u32, Vec3d), usize),
    DecodeError,
>)
    ensures
        match r {
            Ok((t, p)) => spec_subobject_lead(buf@, pos as int, v) == Ok::<
                ((u32, u32, Vec3d), int),
                DecodeError,
            >((t, p as int)),
            Err(e) => spec_subobject_lead(buf@, pos as int, v) == Err::<
                ((u32, u32, Vec3d), int),
                DecodeError,
            >(e),
        },
{
    if v.current_layout() {
        let (radius, p) = read_u32(buf, pos)?;
        let (parent, p) = read_u32(buf, p)?;
        let (offset, p) = read_vec3d(buf, p)?;
        Ok(((radius, parent, offset), p))
    } else {
        let (parent, p) = read_u32(buf, pos)?;
        let (offset, p) = read_vec3d(buf, p)?;
        let (radius, p) = read_u32(buf, p)?;
        Ok(((radius, parent, offset), p))
    }
}

fn read_movement(buf: &[u8], pos: usize) -> (r: Result<
    ((SubsysMovementType, SubsysMovementAxis), usize),
    DecodeError,
>)
    ensures
        match r {
            Ok((t, p)) => spec_movement(buf@, pos as int) == Ok::<
                ((SubsysMovementType, SubsysMovementAxis), int),
                DecodeError,
            >((t, p as int)),
            Err(e) => spec_movement(buf@, pos as int) == Err::<
                ((SubsysMovementType, SubsysMovementAxis), int),
                DecodeError,
            >(e),
        },
{
    let (t, p) = read_i32(buf, pos)?;
    let (a, p) = read_i32(buf, p)?;
    let (chunked, p) = read_i32(buf, p)?;
    if chunked != 0 {
        return Err(DecodeError::StructuralViolation(Violation::BadValue));
    }
    Ok(((parse_subsys_mov_type(t), parse_subsys_mov_axis(a)), p))
}

fn read_embedded_bsp<F: Fn(Vec3d, Vec3d, &Vec<Vec3d>) -> bool>(
    buf: &[u8],
    pos: usize,
    v: Version,
    in_front: &F,
) -> (r: Result<(BspData, usize), DecodeError>)
    requires
        classifier_ok(in_front),
    ensures
        parsed(r, spec_embedded_bsp(buf@, pos as int, v, side_of(in_front))),
{
    let (b, p) = read_byte_buffer(buf, pos)?;
    assert(b.deep_view() =~= b@);
    let d = parse_bsp_data(b.as_slice(), v, in_front)?;
    Ok((d, p))
}

/// Reads the content of a subobject chunk.
pub fn read_subobject<F: Fn(Vec3d, Vec3d, &Vec<Vec3d>) -> bool>(
    buf: &[u8],
    pos: usize,
    v: Version,
    in_front: &F,
) -> (r: Result<(SubObject, usize), DecodeError>)
    requires
        classifier_ok(in_front),
    ensures
        parsed(r, spec_subobject(buf@, pos as int, v, side_of(in_front))),
{
    reveal(spec_subobject);
    let (id, p) = read_u32(buf, pos)?;
    let ((radius, parent, offset), p) = read_subobject_lead(buf, p, v)?;
    let (geo_center, p) = read_vec3d(buf, p)?;
    let (bbox, p) = read_bbox(buf, p)?;
    let (name, p) = read_string(buf, p)?;
    let (properties, p) = read_string(buf, p)?;
    let ((movement_type, movement_axis), p) = read_movement(buf, p)?;
    let (bsp_data, p) = read_embedded_bsp(buf, p, v, in_front)?;
    let parent = if parent == 0xffff_ffff {
        None
    } else {
        Some(ObjectId(parent))
    };
    let children: Vec<ObjectId> = Vec::new();
    assert(name.deep_view() =~= name@);
    assert(properties.deep_view() =~= properties@);
    Ok(
        (
            SubObject {
                obj_id: ObjectId(id),
                radius,
                parent,
                offset,
                geo_center,
                bbox,
                name: Text { bytes: name },
                properties: Text { bytes: properties },
                movement_type,
                movement_axis,
                bsp_data,
                children,
                is_debris_model: false,
            },
            p,
        ),
    )
}

// ---------------------------------------------------------------------
// Writing
// ---------------------------------------------------------------------

/// The tree of a subobject as its chunk holds it: the length of its
/// buffer and the buffer.
pub open spec fn embedded_bsp_bytes(d: SpecBspData, v: Version) -> Seq<u8> {
    u32_bytes(bsp_data_bytes(d, v, 0).len() as u32) + bsp_data_bytes(d, v, 0)
}

/// Whether the tree can be written and its buffer's length fits the
/// length field.
pub open spec fn embedded_bsp_encodable(d: SpecBspData, v: Version) -> bool {
    bsp_data_encodable(d, v, 0) && bsp_data_bytes(d, v, 0).len() <= u32::MAX
}

/// The two movement numbers and the zero behind them.
pub open spec fn movement_bytes(t: SubsysMovementType, a: SubsysMovementAxis) -> Seq<u8> {
    i32_bytes(t.number()) + i32_bytes(a.number()) + i32_bytes(0)
}

/// What the writer emits for a subobject chunk.
pub open spec fn subobject_bytes(m: SpecSubObject, v: Version) -> Seq<u8> {
    u32_bytes(m.obj_id.0) + subobject_lead_bytes(m.radius, parent_number(m.parent), m.offset, v)
        + vec3d_bytes(m.geo_center) + bbox_bytes(m.bbox) + string_bytes(m.name) + string_bytes(
        m.properties,
    ) + movement_bytes(m.movement_type, m.movement_axis) + embedded_bsp_bytes(m.bsp_data, v)
}

/// Whether the texts and the tree of a subobject can be written.
pub open spec fn subobject_encodable(m: SpecSubObject, v: Version) -> bool {
    &&& string_encodable(m.name)
    &&& string_encodable(m.properties)
    &&& embedded_bsp_encodable(m.bsp_data, v)
}

fn write_subobject_lead(w: &mut Vec<u8>, o: &SubObject, v: Version)
    ensures
        final(w)@ == old(w)@ + subobject_lead_bytes(o.radius, parent_number(o.parent), o.offset, v),
{
    let parent: u32 = match o.parent {
        None => 0xffff_ffff,
        Some(id) => id.0,
    };
    if v.current_layout() {
        write_u32(w, o.radius);
        write_u32(w, parent);
        write_vec3d(w, o.offset);
    } else {
        write_u32(w, parent);
        write_vec3d(w, o.offset);
        write_u32(w, o.radius);
    }
    assert(w@ =~= old(w)@ + subobject_lead_bytes(o.radius, parent, o.offset, v));
}

fn write_movement(w: &mut Vec<u8>, o: &SubObject)
    ensures
        final(w)@ == old(w)@ + movement_bytes(o.movement_type, o.movement_axis),
{
    write_i32(w, o.movement_type.to_i32());
    write_i32(w, o.movement_axis.to_i32());
    write_i32(w, 0);
    assert(w@ =~= old(w)@ + movement_bytes(o.movement_type, o.movement_axis));
}

fn write_embedded_bsp(w: &mut Vec<u8>, d: &BspData, v: Version) -> (r: Result<(), EncodeError>)
    ensures
        r is Ok <==> embedded_bsp_encodable(d.deep_view(), v),
        r is Ok ==> final(w)@ == old(w)@ + embedded_bsp_bytes(d.deep_view(), v),
        r is Err ==> final(w)@ == old(w)@,
{
    let mut b: Vec<u8> = Vec::new();
    match write_bsp_data(&mut b, v, d) {
        Err(e) => {
            return Err(e);
        },
        Ok(()) => {},
    }
    assert(b@ =~= bsp_data_bytes(d.deep_view(), v, 0));
    if b.len() > 0xffff_ffff {
        return Err(EncodeError::Unrepresentable);
    }
    write_u32(w, b.len() as u32);
    write_bytes(w, b.as_slice());
    assert(w@ =~= old(w)@ + embedded_bsp_bytes(d.deep_view(), v));
    Ok(())
}

/// Eight pieces, one after the other.
proof fn lemma_eight(
    pre: Seq<u8>,
    a: Seq<u8>,
    b: Seq<u8>,
    c: Seq<u8>,
    d: Seq<u8>,
    e: Seq<u8>,
    f: Seq<u8>,
    g: Seq<u8>,
    h: Seq<u8>,
)
    ensures
        pre + a + b + c + d + e + f + g + h == pre + (a + b + c + d + e + f + g + h),
{
    assert(pre + a + b + c + d + e + f + g + h =~= pre + (a + b + c + d + e + f + g + h));
}

/// Writes the content of a subobject chunk.
pub fn write_subobject(w: &mut Vec<u8>, o: &SubObject, v: Version) -> (r: Result<(), EncodeError>)
    ensures
        r is Ok <==> subobject_encodable(o.deep_view(), v),
        r is Ok ==> final(w)@ == old(w)@ + subobject_bytes(o.deep_view(), v),
{
    let ghost m = o.deep_view();
    write_u32(w, o.obj_id.0);
    write_subobject_lead(w, o, v);
    write_vec3d(w, o.geo_center);
    write_bbox(w, o.bbox);
    match write_string(w, &o.name.bytes) {
        Err(e) => {
            return Err(e);
        },
        Ok(()) => {},
    }
    match write_string(w, &o.properties.bytes) {
        Err(e) => {
            return Err(e);
        },
        Ok(()) => {},
    }
    write_movement(w, o);
    match write_embedded_bsp(w, &o.bsp_data, v) {
        Err(e) => {
            return Err(e);
        },
        Ok(()) => {},
    }
    proof {
        lemma_eight(
            old(w)@,
            u32_bytes(m.obj_id.0),
            subobject_lead_bytes(m.radius, parent_number(m.parent), m.offset, v),
            vec3d_bytes(m.geo_center),
            bbox_bytes(m.bbox),
            string_bytes(m.name),
            string_bytes(m.properties),
            movement_bytes(m.movement_type, m.movement_axis),
            embedded_bsp_bytes(m.bsp_data, v),
        );
    }
    Ok(())
}

} // verus!
