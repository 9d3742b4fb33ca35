//! What holds of the file codec: what the writer emits for a model, the
//! reader reads back as that model.

use vstd::prelude::*;
use crate::bsp::SpecBspData;
use crate::bsp_build::Side;
use crate::bsp_laws::lemma_bsp_data_roundtrip;
use crate::bsp_write::bsp_data_bytes;
use crate::bytes::{
    i32_bytes, items_bytes, items_encodable, items_faithful, lemma_items_roundtrip,
    lemma_le_read_written, lemma_stands_split, lemma_string_stands, lemma_u32_stands, list_bytes,
    no_nul, spec_list, spec_string, spec_u32, stands_at, string_bytes, u32_bytes, Record,
};
use crate::error::DecodeError;
use crate::geom::{
    bbox_bytes, lemma_bbox_roundtrip, lemma_vec3d_roundtrip, spec_bbox, spec_vec3d, vec3d_bytes,
    BoundingBox, Vec3d,
};
use crate::header::{
    header_chunk_bytes, header_chunk_encodable, header_lead_bytes, mass_block_bytes,
    spec_bsp_lights, spec_cross_sections, spec_header_chunk, spec_header_lead, spec_mass_block,
    BspLight, Mat3d, SpecObjHeader, DEFAULT_MASS,
};
use crate::ids::ObjectId;
use crate::model::{
    children_in, children_upto, linked_subobject, linked_subobjects, resolved, spec_finish,
    SpecModel, SpecParseState,
};
use crate::parse::{spec_chunk, spec_chunks, spec_decode, spec_file_head};
use crate::records::CrossSection;
use crate::subobject::{
    embedded_bsp_bytes, embedded_bsp_encodable, lemma_movement_numbers, movement_bytes,
    parent_number, parent_of, spec_embedded_bsp, spec_movement, spec_subobject, spec_subobject_lead,
    subobject_bytes, subobject_encodable, subobject_lead_bytes, SpecSubObject, SubsysMovementAxis,
    SubsysMovementType,
};
use crate::version::Version;

verus! {

// ---------------------------------------------------------------------
// The header chunk
// ---------------------------------------------------------------------

/// Whether a header is one that the reader can yield in a revision: what
/// the revision does not store holds its default, and the number of
/// cross-sections is not the one that stands for none.
pub open spec fn header_faithful(h: SpecObjHeader, v: Version) -> bool {
    &&& !v.stores_mass() ==> h.mass == DEFAULT_MASS && h.center_of_mass
        == Vec3d::spec_zero() && h.moment_of_inertia == Mat3d::spec_default_inertia()
    &&& !v.stores_cross_sections() ==> h.cross_sections == Seq::<CrossSection>::empty()
    &&& h.cross_sections.len() != u32::MAX
    &&& !v.stores_lights() ==> h.bsp_lights == Seq::<BspLight>::empty()
}

proof fn lemma_header_lead_stands(s: Seq<u8>, pos: int, a: u32, b: u32, c: u32, v: Version)
    requires
        stands_at(s, pos, header_lead_bytes(a, b, c, v)),
    ensures
        spec_header_lead(s, pos, v) == Ok::<((u32, u32, u32), int), DecodeError>(
            ((a, b, c), pos + 12),
        ),
        header_lead_bytes(a, b, c, v).len() == 12,
{
    let (x, y, z) = if v.current_layout() {
        (a, b, c)
    } else {
        (c, a, b)
    };
    assert(header_lead_bytes(a, b, c, v) == (u32_bytes(x) + u32_bytes(y)) + u32_bytes(z));
    lemma_stands_split(s, pos, u32_bytes(x) + u32_bytes(y), u32_bytes(z));
    lemma_stands_split(s, pos, u32_bytes(x), u32_bytes(y));
    lemma_u32_stands(s, pos, x);
    lemma_u32_stands(s, pos + 4, y);
    lemma_u32_stands(s, pos + 8, z);
}

proof fn lemma_mass_block_stands(s: Seq<u8>, pos: int, mass: u32, com: Vec3d, moi: Mat3d, v: Version)
    requires
        0 <= pos <= s.len(),
        stands_at(s, pos, mass_block_bytes(mass, com, moi, v)),
        !v.stores_mass() ==> mass == DEFAULT_MASS && com == Vec3d::spec_zero() && moi
            == Mat3d::spec_default_inertia(),
    ensures
        spec_mass_block(s, pos, v) == Ok::<((u32, Vec3d, Mat3d), int), DecodeError>(
            ((mass, com, moi), pos + mass_block_bytes(mass, com, moi, v).len()),
        ),
{
    if v.stores_mass() {
        let a = u32_bytes(mass);
        let b = vec3d_bytes(com);
        let c = vec3d_bytes(moi.rvec);
        let d = vec3d_bytes(moi.uvec);
        let e = vec3d_bytes(moi.fvec);
        assert(mass_block_bytes(mass, com, moi, v) == (((a + b) + c) + d) + e);
        lemma_stands_split(s, pos, ((a + b) + c) + d, e);
        lemma_stands_split(s, pos, (a + b) + c, d);
        lemma_stands_split(s, pos, a + b, c);
        lemma_stands_split(s, pos, a, b);
        lemma_u32_stands(s, pos, mass);
        lemma_vec3d_roundtrip(com, s, pos + 4);
        lemma_vec3d_roundtrip(moi.rvec, s, pos + 16);
        lemma_vec3d_roundtrip(moi.uvec, s, pos + 28);
        lemma_vec3d_roundtrip(moi.fvec, s, pos + 40);
    }
}

/// Items whose records ask nothing of them can all be written and read.
pub proof fn lemma_plain_items<T: Record>(xs: Seq<T::V>, v: Version)
    requires
        forall|x: T::V| T::encodable(x, v) && T::faithful(x, v),
    ensures
        items_encodable::<T>(xs, v),
        items_faithful::<T>(xs, v),
{
}

proof fn lemma_cross_sections_stand(s: Seq<u8>, pos: int, xs: Seq<CrossSection>, v: Version)
    requires
        0 <= pos <= s.len(),
        xs.len() < u32::MAX,
        v.stores_cross_sections() ==> stands_at(s, pos, list_bytes::<CrossSection>(xs, v)),
        !v.stores_cross_sections() ==> xs == Seq::<CrossSection>::empty(),
    ensures
        spec_cross_sections(s, pos, v) == Ok::<(Seq<CrossSection>, int), DecodeError>(
            (
                xs,
                pos + (if v.stores_cross_sections() {
                    list_bytes::<CrossSection>(xs, v).len() as int
                } else {
                    0int
                }),
            ),
        ),
{
    if v.stores_cross_sections() {
        lemma_plain_items::<CrossSection>(xs, v);
        lemma_stands_split(s, pos, u32_bytes(xs.len() as u32), items_bytes::<CrossSection>(xs, v));
        lemma_u32_stands(s, pos, xs.len() as u32);
        lemma_items_roundtrip::<CrossSection>(xs, v, s, pos + 4);
    }
}

proof fn lemma_bsp_lights_stand(s: Seq<u8>, pos: int, xs: Seq<BspLight>, v: Version)
    requires
        0 <= pos <= s.len(),
        xs.len() <= u32::MAX,
        v.stores_lights() ==> stands_at(s, pos, list_bytes::<BspLight>(xs, v)),
        !v.stores_lights() ==> xs == Seq::<BspLight>::empty(),
    ensures
        spec_bsp_lights(s, pos, v) == Ok::<(Seq<BspLight>, int), DecodeError>(
            (
                xs,
                pos + (if v.stores_lights() {
                    list_bytes::<BspLight>(xs, v).len() as int
                } else {
                    0int
                }),
            ),
        ),
{
    if v.stores_lights() {
        lemma_plain_items::<BspLight>(xs, v);
        <Vec<BspLight> as Record>::lemma_roundtrip(xs, v, s, pos);
    }
}

proof fn lemma_ids_stand(s: Seq<u8>, pos: int, xs: Seq<ObjectId>, v: Version)
    requires
        xs.len() <= u32::MAX,
        stands_at(s, pos, list_bytes::<ObjectId>(xs, v)),
    ensures
        spec_list::<ObjectId>(s, pos, v) == Ok::<(Seq<ObjectId>, int), DecodeError>(
            (xs, pos + list_bytes::<ObjectId>(xs, v).len()),
        ),
{
    lemma_plain_items::<ObjectId>(xs, v);
    <Vec<ObjectId> as Record>::lemma_roundtrip(xs, v, s, pos);
}

/// The bytes of the cross-sections in a revision.
pub open spec fn cross_sections_bytes(h: SpecObjHeader, v: Version) -> Seq<u8> {
    if v.stores_cross_sections() {
        list_bytes::<CrossSection>(h.cross_sections, v)
    } else {
        Seq::empty()
    }
}

/// The bytes of the light markers in a revision.
pub open spec fn bsp_lights_bytes(h: SpecObjHeader, v: Version) -> Seq<u8> {
    if v.stores_lights() {
        list_bytes::<BspLight>(h.bsp_lights, v)
    } else {
        Seq::empty()
    }
}

/// Where the pieces of a header chunk stand.
proof fn lemma_header_pieces(h: SpecObjHeader, debris: Seq<ObjectId>, v: Version, s: Seq<u8>, pos: int)
    requires
        stands_at(s, pos, header_chunk_bytes(h, debris, v)),
    ensures
        ({
            let b2 = list_bytes::<ObjectId>(h.detail_levels, v);
            let b3 = list_bytes::<ObjectId>(debris, v);
            let b4 = mass_block_bytes(h.mass, h.center_of_mass, h.moment_of_inertia, v);
            let b5 = cross_sections_bytes(h, v);
            let b6 = bsp_lights_bytes(h, v);
            let p2 = pos + 36;
            let p3 = p2 + b2.len();
            let p4 = p3 + b3.len();
            let p5 = p4 + b4.len();
            let p6 = p5 + b5.len();
            &&& stands_at(s, pos, header_lead_bytes(h.max_radius, h.obj_flags, h.num_subobjects, v))
            &&& stands_at(s, pos + 12, bbox_bytes(h.bbox))
            &&& stands_at(s, p2, b2)
            &&& stands_at(s, p3, b3)
            &&& stands_at(s, p4, b4)
            &&& stands_at(s, p5, b5)
            &&& stands_at(s, p6, b6)
            &&& header_chunk_bytes(h, debris, v).len() == 36 + b2.len() + b3.len() + b4.len()
                + b5.len() + b6.len()
        }),
{
    let b0 = header_lead_bytes(h.max_radius, h.obj_flags, h.num_subobjects, v);
    let b1 = bbox_bytes(h.bbox);
    let b2 = list_bytes::<ObjectId>(h.detail_levels, v);
    let b3 = list_bytes::<ObjectId>(debris, v);
    let b4 = mass_block_bytes(h.mass, h.center_of_mass, h.moment_of_inertia, v);
    let b5 = cross_sections_bytes(h, v);
    let b6 = bsp_lights_bytes(h, v);
    assert(header_chunk_bytes(h, debris, v) == b0 + b1 + b2 + b3 + b4 + b5 + b6);
    lemma_stands_split(s, pos, b0 + b1 + b2 + b3 + b4 + b5, b6);
    lemma_stands_split(s, pos, b0 + b1 + b2 + b3 + b4, b5);
    lemma_stands_split(s, pos, b0 + b1 + b2 + b3, b4);
    lemma_stands_split(s, pos, b0 + b1 + b2, b3);
    lemma_stands_split(s, pos, b0 + b1, b2);
    lemma_stands_split(s, pos, b0, b1);
    assert(b0.len() == 12);
    assert(b1.len() == 24);
}

/// The header chunk reads as a whole once its pieces do.
proof fn lemma_header_reads(
    h: SpecObjHeader,
    debris: Seq<ObjectId>,
    v: Version,
    s: Seq<u8>,
    pos: int,
    p3: int,
    p4: int,
    p5: int,
    p6: int,
    p7: int,
)
    requires
        spec_header_lead(s, pos, v) == Ok::<((u32, u32, u32), int), DecodeError>(
            ((h.max_radius, h.obj_flags, h.num_subobjects), pos + 12),
        ),
        spec_bbox(s, pos + 12) == Ok::<(BoundingBox, int), DecodeError>((h.bbox, pos + 36)),
        spec_list::<ObjectId>(s, pos + 36, v) == Ok::<(Seq<ObjectId>, int), DecodeError>(
            (h.detail_levels, p3),
        ),
        spec_list::<ObjectId>(s, p3, v) == Ok::<(Seq<ObjectId>, int), DecodeError>((debris, p4)),
        spec_mass_block(s, p4, v) == Ok::<((u32, Vec3d, Mat3d), int), DecodeError>(
            ((h.mass, h.center_of_mass, h.moment_of_inertia), p5),
        ),
        spec_cross_sections(s, p5, v) == Ok::<(Seq<CrossSection>, int), DecodeError>(
            (h.cross_sections, p6),
        ),
        spec_bsp_lights(s, p6, v) == Ok::<(Seq<BspLight>, int), DecodeError>((h.bsp_lights, p7)),
    ensures
        spec_header_chunk(s, pos, v) == Ok::<((SpecObjHeader, Seq<ObjectId>), int), DecodeError>(
            ((h, debris), p7),
        ),
{
    reveal(spec_header_chunk);
}

/// The header chunk that the writer emits reads back as the header and
/// the debris list it was written for.
pub proof fn lemma_header_chunk_roundtrip(
    h: SpecObjHeader,
    debris: Seq<ObjectId>,
    v: Version,
    s: Seq<u8>,
    pos: int,
)
    requires
        header_chunk_encodable(h, debris, v),
        header_faithful(h, v),
        stands_at(s, pos, header_chunk_bytes(h, debris, v)),
    ensures
        spec_header_chunk(s, pos, v) == Ok::<((SpecObjHeader, Seq<ObjectId>), int), DecodeError>(
            ((h, debris), pos + header_chunk_bytes(h, debris, v).len()),
        ),
{
    let b2 = list_bytes::<ObjectId>(h.detail_levels, v);
    let b3 = list_bytes::<ObjectId>(debris, v);
    let b4 = mass_block_bytes(h.mass, h.center_of_mass, h.moment_of_inertia, v);
    let b5 = cross_sections_bytes(h, v);
    let b6 = bsp_lights_bytes(h, v);
    let p2 = pos + 36;
    let p3 = p2 + b2.len();
    let p4 = p3 + b3.len();
    let p5 = p4 + b4.len();
    let p6 = p5 + b5.len();
    let p7 = p6 + b6.len();
    lemma_header_pieces(h, debris, v, s, pos);
    lemma_header_lead_stands(s, pos, h.max_radius, h.obj_flags, h.num_subobjects, v);
    assert(spec_bbox(s, pos + 12) == Ok::<(BoundingBox, int), DecodeError>((h.bbox, pos + 36))) by {
        assert(vec3d_bytes(h.bbox.min).len() == 12);
        lemma_bbox_roundtrip(h.bbox, s, pos + 12);
    }
    lemma_ids_stand(s, p2, h.detail_levels, v);
    lemma_ids_stand(s, p3, debris, v);
    lemma_mass_block_stands(s, p4, h.mass, h.center_of_mass, h.moment_of_inertia, v);
    lemma_cross_sections_stand(s, p5, h.cross_sections, v);
    lemma_bsp_lights_stand(s, p6, h.bsp_lights, v);
    lemma_header_reads(h, debris, v, s, pos, p3, p4, p5, p6, p7);
}

// ---------------------------------------------------------------------
// The subobject chunk
// ---------------------------------------------------------------------

/// A subobject as its chunk holds it: without its children and without
/// its debris mark.
pub open spec fn stored_subobject(o: SpecSubObject) -> SpecSubObject {
    SpecSubObject { children: Seq::empty(), is_debris_model: false, ..o }
}

/// Whether a subobject is one that the reader can yield: no NUL in its
/// texts, a parent whose id the format can tell from no parent, and a
/// tree that is not empty.
pub open spec fn subobject_faithful(o: SpecSubObject) -> bool {
    &&& no_nul(o.name)
    &&& no_nul(o.properties)
    &&& o.parent != Some(ObjectId(u32::MAX))
    &&& !(o.bsp_data.collision_tree is Empty)
}

proof fn lemma_subobject_lead_stands(
    s: Seq<u8>,
    pos: int,
    radius: u32,
    parent: u32,
    offset: Vec3d,
    v: Version,
)
    requires
        stands_at(s, pos, subobject_lead_bytes(radius, parent, offset, v)),
    ensures
        spec_subobject_lead(s, pos, v) == Ok::<((u32, u32, Vec3d), int), DecodeError>(
            ((radius, parent, offset), pos + 20),
        ),
        subobject_lead_bytes(radius, parent, offset, v).len() == 20,
{
    if v.current_layout() {
        let a = u32_bytes(radius);
        let b = u32_bytes(parent);
        let c = vec3d_bytes(offset);
        lemma_stands_split(s, pos, a + b, c);
        lemma_stands_split(s, pos, a, b);
        lemma_u32_stands(s, pos, radius);
        lemma_u32_stands(s, pos + 4, parent);
        lemma_vec3d_roundtrip(offset, s, pos + 8);
    } else {
        let a = u32_bytes(parent);
        let b = vec3d_bytes(offset);
        let c = u32_bytes(radius);
        lemma_stands_split(s, pos, a + b, c);
        lemma_stands_split(s, pos, a, b);
        lemma_u32_stands(s, pos, parent);
        lemma_vec3d_roundtrip(offset, s, pos + 4);
        lemma_u32_stands(s, pos + 16, radius);
    }
}

proof fn lemma_movement_stands(s: Seq<u8>, pos: int, t: SubsysMovementType, a: SubsysMovementAxis)
    requires
        stands_at(s, pos, movement_bytes(t, a)),
    ensures
        spec_movement(s, pos) == Ok::<
            ((SubsysMovementType, SubsysMovementAxis), int),
            DecodeError,
        >(((t, a), pos + 12)),
        movement_bytes(t, a).len() == 12,
{
    let x = i32_bytes(t.number());
    let y = i32_bytes(a.number());
    let z = i32_bytes(0);
    lemma_le_read_written(0, 0, t.number());
    lemma_le_read_written(0, 0, a.number());
    lemma_le_read_written(0, 0, 0);
    lemma_stands_split(s, pos, x + y, z);
    lemma_stands_split(s, pos, x, y);
    lemma_movement_numbers(t, a);
}

proof fn lemma_embedded_bsp_stands(s: Seq<u8>, pos: int, d: SpecBspData, v: Version, side: Side)
    requires
        v.current_tree(),
        embedded_bsp_encodable(d, v),
        !(d.collision_tree is Empty),
        stands_at(s, pos, embedded_bsp_bytes(d, v)),
    ensures
        spec_embedded_bsp(s, pos, v, side) == Ok::<(SpecBspData, int), DecodeError>(
            (d, pos + embedded_bsp_bytes(d, v).len()),
        ),
{
    let b = bsp_data_bytes(d, v, 0);
    lemma_stands_split(s, pos, u32_bytes(b.len() as u32), b);
    lemma_u32_stands(s, pos, b.len() as u32);
    lemma_bsp_data_roundtrip(d, v, side);
}

/// Where the pieces of a subobject chunk stand.
proof fn lemma_subobject_pieces(o: SpecSubObject, v: Version, s: Seq<u8>, pos: int)
    requires
        stands_at(s, pos, subobject_bytes(o, v)),
    ensures
        ({
            let b4 = string_bytes(o.name);
            let b5 = string_bytes(o.properties);
            let b7 = embedded_bsp_bytes(o.bsp_data, v);
            let p4 = pos + 60;
            let p5 = p4 + b4.len();
            let p6 = p5 + b5.len();
            &&& stands_at(s, pos, u32_bytes(o.obj_id.0))
            &&& stands_at(
                s,
                pos + 4,
                subobject_lead_bytes(o.radius, parent_number(o.parent), o.offset, v),
            )
            &&& stands_at(s, pos + 24, vec3d_bytes(o.geo_center))
            &&& stands_at(s, pos + 36, bbox_bytes(o.bbox))
            &&& stands_at(s, p4, b4)
            &&& stands_at(s, p5, b5)
            &&& stands_at(s, p6, movement_bytes(o.movement_type, o.movement_axis))
            &&& stands_at(s, p6 + 12, b7)
            &&& subobject_bytes(o, v).len() == 72 + b4.len() + b5.len() + b7.len()
        }),
{
    let b0 = u32_bytes(o.obj_id.0);
    let b1 = subobject_lead_bytes(o.radius, parent_number(o.parent), o.offset, v);
    let b2 = vec3d_bytes(o.geo_center);
    let b3 = bbox_bytes(o.bbox);
    let b4 = string_bytes(o.name);
    let b5 = string_bytes(o.properties);
    let b6 = movement_bytes(o.movement_type, o.movement_axis);
    let b7 = embedded_bsp_bytes(o.bsp_data, v);
    assert(subobject_bytes(o, v) == b0 + b1 + b2 + b3 + b4 + b5 + b6 + b7);
    lemma_stands_split(s, pos, b0 + b1 + b2 + b3 + b4 + b5 + b6, b7);
    lemma_stands_split(s, pos, b0 + b1 + b2 + b3 + b4 + b5, b6);
    lemma_stands_split(s, pos, b0 + b1 + b2 + b3 + b4, b5);
    lemma_stands_split(s, pos, b0 + b1 + b2 + b3, b4);
    lemma_stands_split(s, pos, b0 + b1 + b2, b3);
    lemma_stands_split(s, pos, b0 + b1, b2);
    lemma_stands_split(s, pos, b0, b1);
    assert(b1.len() == 20);
    assert(b2.len() == 12);
    assert(b3.len() == 24);
    assert(b6.len() == 12);
}

/// The subobject chunk reads as a whole once its pieces do.
proof fn lemma_subobject_reads(
    o: SpecSubObject,
    v: Version,
    side: Side,
    s: Seq<u8>,
    pos: int,
    p5: int,
    p6: int,
    p8: int,
)
    requires
        o.parent != Some(ObjectId(u32::MAX)),
        spec_u32(s, pos) == Ok::<(u32, int), DecodeError>((o.obj_id.0, pos + 4)),
        spec_subobject_lead(s, pos + 4, v) == Ok::<((u32, u32, Vec3d), int), DecodeError>(
            ((o.radius, parent_number(o.parent), o.offset), pos + 24),
        ),
        spec_vec3d(s, pos + 24) == Ok::<(Vec3d, int), DecodeError>((o.geo_center, pos + 36)),
        spec_bbox(s, pos + 36) == Ok::<(BoundingBox, int), DecodeError>((o.bbox, pos + 60)),
        spec_string(s, pos + 60) == Ok::<(Seq<u8>, int), DecodeError>((o.name, p5)),
        spec_string(s, p5) == Ok::<(Seq<u8>, int), DecodeError>((o.properties, p6)),
        spec_movement(s, p6) == Ok::<
            ((SubsysMovementType, SubsysMovementAxis), int),
            DecodeError,
        >(((o.movement_type, o.movement_axis), p6 + 12)),
        spec_embedded_bsp(s, p6 + 12, v, side) == Ok::<(SpecBspData, int), DecodeError>(
            (o.bsp_data, p8),
        ),
    ensures
        spec_subobject(s, pos, v, side) == Ok::<(SpecSubObject, int), DecodeError>(
            (stored_subobject(o), p8),
        ),
{
    reveal(spec_subobject);
    assert(parent_of(parent_number(o.parent)) == o.parent);
}

/// In the current tree layout, the subobject chunk that the writer
/// emits reads back as the subobject it was written for, less its
/// children and its debris mark, which the chunk does not hold.
pub proof fn lemma_subobject_roundtrip(
    o: SpecSubObject,
    v: Version,
    side: Side,
    s: Seq<u8>,
    pos: int,
)
    requires
        v.current_tree(),
        subobject_encodable(o, v),
        subobject_faithful(o),
        stands_at(s, pos, subobject_bytes(o, v)),
    ensures
        spec_subobject(s, pos, v, side) == Ok::<(SpecSubObject, int), DecodeError>(
            (stored_subobject(o), pos + subobject_bytes(o, v).len()),
        ),
{
    let p4 = pos + 60;
    let p5 = p4 + string_bytes(o.name).len();
    let p6 = p5 + string_bytes(o.properties).len();
    let p8 = p6 + 12 + embedded_bsp_bytes(o.bsp_data, v).len();
    lemma_subobject_pieces(o, v, s, pos);
    lemma_u32_stands(s, pos, o.obj_id.0);
    lemma_subobject_lead_stands(s, pos + 4, o.radius, parent_number(o.parent), o.offset, v);
    lemma_vec3d_roundtrip(o.geo_center, s, pos + 24);
    assert(spec_bbox(s, pos + 36) == Ok::<(BoundingBox, int), DecodeError>((o.bbox, pos + 60))) by {
        assert(vec3d_bytes(o.bbox.min).len() == 12);
        lemma_bbox_roundtrip(o.bbox, s, pos + 36);
    }
    lemma_string_stands(s, p4, o.name);
    lemma_string_stands(s, p5, o.properties);
    lemma_movement_stands(s, p6, o.movement_type, o.movement_axis);
    lemma_embedded_bsp_stands(s, p6 + 12, o.bsp_data, v, side);
    lemma_subobject_reads(o, v, side, s, pos, p5, p6, p8);
}

// ---------------------------------------------------------------------
// Files that store no mass
// ---------------------------------------------------------------------

/// Whether a header holds the mass, the centre of mass and the moment of
/// inertia that stand for a file that stores none: mass fifty at the
/// origin, and the identity scaled by a thousandth.
pub open spec fn default_mass(h: SpecObjHeader) -> bool {
    &&& h.mass == DEFAULT_MASS
    &&& h.center_of_mass == Vec3d::spec_zero()
    &&& h.moment_of_inertia == Mat3d::spec_default_inertia()
}

/// Whether the header that was read, if one was, holds the default mass.
pub open spec fn state_default_mass(st: SpecParseState) -> bool {
    st.header matches Some(h) ==> default_mass(h)
}

/// Below `V19_03` a chunk leaves the header with the default mass.
proof fn lemma_chunk_default_mass(
    st: SpecParseState,
    s: Seq<u8>,
    pos: int,
    tag: u32,
    len: u32,
    v: Version,
    side: Side,
)
    requires
        !v.stores_mass(),
        state_default_mass(st),
    ensures
        spec_chunk(st, s, pos, tag, len, v, side) matches Ok((st2, _)) ==> state_default_mass(st2),
{
    reveal(spec_chunk);
    reveal(spec_header_chunk);
}

/// Below `V19_03` the chunk loop leaves the header with the default mass.
proof fn lemma_chunks_default_mass(st: SpecParseState, s: Seq<u8>, pos: int, v: Version, side: Side)
    requires
        !v.stores_mass(),
        state_default_mass(st),
    ensures
        spec_chunks(st, s, pos, v, side) matches Ok(st2) ==> state_default_mass(st2),
    decreases s.len() - pos,
{
    reveal(spec_chunks);
    if pos < s.len() {
        match spec_u32(s, pos) {
            Ok((tag, p1)) => match spec_u32(s, p1) {
                Ok((len, p2)) => {
                    lemma_chunk_default_mass(st, s, p2, tag, len, v, side);
                    match spec_chunk(st, s, p2, tag, len, v, side) {
                        Ok((st2, p3)) => {
                            if p3 > pos && p3 <= s.len() {
                                lemma_chunks_default_mass(st2, s, p3, v, side);
                            }
                        },
                        Err(_) => {},
                    }
                },
                Err(_) => {},
            },
            Err(_) => {},
        }
    }
}

/// A file of a revision below `V19_03`, which stores no mass, decodes
/// to a model of mass fifty, with its centre of mass at the origin and
/// the identity scaled by a thousandth as its moment of inertia.
pub proof fn lemma_decoded_default_mass(s: Seq<u8>, side: Side)
    ensures
        spec_decode(s, side) matches Ok(m) ==> (!m.version.stores_mass()
            ==> default_mass(m.header)),
{
    match spec_file_head(s) {
        Ok(v) => {
            if !v.stores_mass() {
                lemma_chunks_default_mass(SpecParseState::start(), s, 8, v, side);
            }
        },
        Err(_) => {},
    }
}

// ---------------------------------------------------------------------
// The hierarchy of a decoded model
// ---------------------------------------------------------------------

/// Whether the subobjects of a model hang together: the header counts
/// them; each stands in the slot its id names; a parent is a subobject
/// of the model; and the children of a subobject are the subobjects that
/// name it as their parent, in the order of their ids.
pub open spec fn hierarchy_wf(m: SpecModel) -> bool {
    &&& m.header.num_subobjects == m.sub_objects.len()
    &&& forall|i: int|
        0 <= i < m.sub_objects.len() ==> {
            let o = #[trigger] m.sub_objects[i];
            &&& o.obj_id == ObjectId(i as u32)
            &&& o.parent matches Some(p) ==> p.0 < m.sub_objects.len()
            &&& o.children == children_in(m.sub_objects, i, m.sub_objects.len() as int)
        }
}

/// What holds of the subobject table while a file is read: it has as
/// many slots as the header counts, and a subobject in a slot has the
/// id of the slot and a parent that is in its slot.
pub open spec fn table_wf(st: SpecParseState) -> bool {
    &&& st.sub_objects.len() == (match st.header {
        Some(h) => h.num_subobjects as int,
        None => 0int,
    })
    &&& forall|j: int|
        0 <= j < st.sub_objects.len() ==> ((#[trigger] st.sub_objects[j]) matches Some(o) ==> {
            &&& o.obj_id == ObjectId(j as u32)
            &&& o.parent matches Some(p) ==> p.0 < st.sub_objects.len()
        })
}

/// A chunk keeps the table in order.
proof fn lemma_chunk_table(
    st: SpecParseState,
    s: Seq<u8>,
    pos: int,
    tag: u32,
    len: u32,
    v: Version,
    side: Side,
)
    requires
        table_wf(st),
    ensures
        spec_chunk(st, s, pos, tag, len, v, side) matches Ok((st2, _)) ==> table_wf(st2),
{
    reveal(spec_chunk);
}

/// The chunk loop keeps the table in order.
proof fn lemma_chunks_table(st: SpecParseState, s: Seq<u8>, pos: int, v: Version, side: Side)
    requires
        table_wf(st),
    ensures
        spec_chunks(st, s, pos, v, side) matches Ok(st2) ==> table_wf(st2),
    decreases s.len() - pos,
{
    reveal(spec_chunks);
    if pos < s.len() {
        match spec_u32(s, pos) {
            Ok((tag, p1)) => match spec_u32(s, p1) {
                Ok((len, p2)) => {
                    lemma_chunk_table(st, s, p2, tag, len, v, side);
                    match spec_chunk(st, s, p2, tag, len, v, side) {
                        Ok((st2, p3)) => {
                            if p3 > pos && p3 <= s.len() {
                                lemma_chunks_table(st2, s, p3, v, side);
                            }
                        },
                        Err(_) => {},
                    }
                },
                Err(_) => {},
            },
            Err(_) => {},
        }
    }
}

/// The children that the reader gives a subobject are the subobjects
/// that name it as their parent.
proof fn lemma_children(slots: Seq<Option<SpecSubObject>>, debris: Seq<ObjectId>, i: int, k: int)
    requires
        resolved(slots),
        0 <= k <= slots.len(),
    ensures
        children_upto(slots, i, k) == children_in(linked_subobjects(slots, debris), i, k),
    decreases k,
{
    if k > 0 {
        lemma_children(slots, debris, i, k - 1);
        assert(slots[k - 1] is Some);
        assert(linked_subobjects(slots, debris)[k - 1] == linked_subobject(slots, debris, k - 1));
    }
}

/// In a model that a file decodes to, the subobjects hang together.
pub proof fn lemma_decoded_hierarchy(s: Seq<u8>, side: Side)
    ensures
        spec_decode(s, side) matches Ok(m) ==> hierarchy_wf(m),
{
    match spec_file_head(s) {
        Ok(v) => {
            lemma_chunks_table(SpecParseState::start(), s, 8, v, side);
            match spec_chunks(SpecParseState::start(), s, 8, v, side) {
                Ok(st) => {
                    match spec_finish(st, v) {
                        Ok(m) => {
                            let n = st.sub_objects.len() as int;
                            assert forall|i: int| 0 <= i < m.sub_objects.len() implies {
                                let o = #[trigger] m.sub_objects[i];
                                &&& o.obj_id == ObjectId(i as u32)
                                &&& o.parent matches Some(p) ==> p.0 < m.sub_objects.len()
                                &&& o.children == children_in(
                                    m.sub_objects,
                                    i,
                                    m.sub_objects.len() as int,
                                )
                            } by {
                                assert(st.sub_objects[i] is Some);
                                assert(m.sub_objects[i] == linked_subobject(
                                    st.sub_objects,
                                    st.debris,
                                    i,
                                ));
                                lemma_children(st.sub_objects, st.debris, i, n);
                            }
                        },
                        Err(_) => {},
                    }
                },
                Err(_) => {},
            }
        },
        Err(_) => {},
    }
}

} // verus!
