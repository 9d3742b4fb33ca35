//! The object header: what a model is as a whole.

use vstd::prelude::*;
use crate::bytes::{
    has_bytes, le_u32, lemma_stands_split, lemma_u32_stands, list_bytes, list_encodable, parsed,
    read_list, read_list_n, read_u32, spec_list, spec_list_n, spec_u32, u32_bytes, write_u32,
    Parsed, Record,
};
use crate::error::{DecodeError, EncodeError, Violation};
use crate::geom::{
    bbox_bytes, lemma_vec3d_roundtrip, read_bbox, read_vec3d, spec_bbox, spec_vec3d, vec3d_bytes,
    write_bbox, write_vec3d, BoundingBox, Vec3d,
};
use crate::ids::ObjectId;
use crate::records::CrossSection;
use crate::version::Version;

verus! {

/// The bits of the number fifty: the mass of a model whose file stores
/// none.
pub const DEFAULT_MASS: u32 = 0x4248_0000;

/// The bits of the thousandth part of one: the diagonal of the moment of
/// inertia of a model whose file stores none.
pub const DEFAULT_INERTIA: u32 = 0x3a83_126f;

/// Three vectors: the rows of a matrix.
#[derive(Clone, Copy, PartialEq, Eq, Debug, Hash, Structural)]
pub struct Mat3d {
    pub rvec: Vec3d,
    pub uvec: Vec3d,
    pub fvec: Vec3d,
}

impl Mat3d {
    /// The identity scaled by a thousandth.
    pub open spec fn spec_default_inertia() -> Mat3d {
        Mat3d {
            rvec: Vec3d { x: DEFAULT_INERTIA, y: 0, z: 0 },
            uvec: Vec3d { x: 0, y: DEFAULT_INERTIA, z: 0 },
            fvec: Vec3d { x: 0, y: 0, z: DEFAULT_INERTIA },
        }
    }

    #[verifier::when_used_as_spec(spec_default_inertia)]
    pub fn default_inertia() -> (m: Mat3d)
        ensures
            m == Mat3d::spec_default_inertia(),
    {
        Mat3d {
            rvec: Vec3d { x: DEFAULT_INERTIA, y: 0, z: 0 },
            uvec: Vec3d { x: 0, y: DEFAULT_INERTIA, z: 0 },
            fvec: Vec3d { x: 0, y: 0, z: DEFAULT_INERTIA },
        }
    }
}

/// What an embedded light marks.
#[derive(Clone, Copy, PartialEq, Eq, Debug, Hash, Structural)]
pub enum BspLightKind {
    Muzzle,
    Thruster,
}

/// An embedded light marker.
#[derive(Clone, Copy, PartialEq, Eq, Debug, Hash, Structural)]
pub struct BspLight {
    pub location: Vec3d,
    pub kind: BspLightKind,
}

impl View for BspLight {
    type V = BspLight;

    open spec fn view(&self) -> BspLight {
        *self
    }
}

impl DeepView for BspLight {
    type V = BspLight;

    open spec fn deep_view(&self) -> BspLight {
        *self
    }
}

impl BspLightKind {
    /// The number that stands for the kind.
    pub open spec fn number(self) -> u32 {
        match self {
            BspLightKind::Muzzle => 1,
            BspLightKind::Thruster => 2,
        }
    }
}

/// A light marker: its place and the number of its kind. A number that
/// names no kind is refused.
impl Record for BspLight {
    open spec fn parse(s: Seq<u8>, pos: int, v: Version) -> Parsed<BspLight> {
        match spec_vec3d(s, pos) {
            Err(e) => Err(e),
            Ok((location, p)) => match spec_u32(s, p) {
                Err(e) => Err(e),
                Ok((k, q)) => if k == 1 {
                    Ok((BspLight { location, kind: BspLightKind::Muzzle }, q))
                } else if k == 2 {
                    Ok((BspLight { location, kind: BspLightKind::Thruster }, q))
                } else {
                    Err(DecodeError::StructuralViolation(Violation::BadValue))
                },
            },
        }
    }

    open spec fn bytes(m: BspLight, v: Version) -> Seq<u8> {
        vec3d_bytes(m.location) + u32_bytes(m.kind.number())
    }

    open spec fn encodable(m: BspLight, v: Version) -> bool {
        true
    }

    open spec fn faithful(m: BspLight, v: Version) -> bool {
        true
    }

    proof fn lemma_roundtrip(m: BspLight, v: Version, s: Seq<u8>, pos: int) {
        lemma_stands_split(s, pos, vec3d_bytes(m.location), u32_bytes(m.kind.number()));
        lemma_vec3d_roundtrip(m.location, s, pos);
        lemma_u32_stands(s, pos + 12, m.kind.number());
    }

    fn read(buf: &[u8], pos: usize, v: Version) -> (r: Result<(BspLight, usize), DecodeError>) {
        let (location, p) = read_vec3d(buf, pos)?;
        let (k, q) = read_u32(buf, p)?;
        if k == 1 {
            Ok((BspLight { location, kind: BspLightKind::Muzzle }, q))
        } else if k == 2 {
            Ok((BspLight { location, kind: BspLightKind::Thruster }, q))
        } else {
            Err(DecodeError::StructuralViolation(Violation::BadValue))
        }
    }

    fn write_to(&self, w: &mut Vec<u8>, v: Version) -> (r: Result<(), EncodeError>) {
        write_vec3d(w, self.location);
        match self.kind {
            BspLightKind::Muzzle => write_u32(w, 1),
            BspLightKind::Thruster => write_u32(w, 2),
        }
        assert(w@ =~= old(w)@ + Self::bytes(*self, v));
        Ok(())
    }
}

/// The header of a model.
///
/// The mass is held as the file of the model's revision stores it. From
/// `V19_03` up to, but not including, `V20_09` that is a volume mass;
/// from `V20_09` on an area mass. To turn one into the other is
/// arithmetic on real numbers and is left to the caller.
#[derive(Clone, PartialEq, Eq, Debug)]
pub struct ObjHeader {
    pub max_radius: u32,
    pub obj_flags: u32,
    pub num_subobjects: u32,
    pub bbox: BoundingBox,
    pub detail_levels: Vec<ObjectId>,
    pub mass: u32,
    pub center_of_mass: Vec3d,
    pub moment_of_inertia: Mat3d,
    pub cross_sections: Vec<CrossSection>,
    pub bsp_lights: Vec<BspLight>,
}

/// What an [`ObjHeader`] holds.
pub struct SpecObjHeader {
    pub max_radius: u32,
    pub obj_flags: u32,
    pub num_subobjects: u32,
    pub bbox: BoundingBox,
    pub detail_levels: Seq<ObjectId>,
    pub mass: u32,
    pub center_of_mass: Vec3d,
    pub moment_of_inertia: Mat3d,
    pub cross_sections: Seq<CrossSection>,
    pub bsp_lights: Seq<BspLight>,
}

impl DeepView for ObjHeader {
    type V = SpecObjHeader;

    open spec fn deep_view(&self) -> SpecObjHeader {
        SpecObjHeader {
            max_radius: self.max_radius,
            obj_flags: self.obj_flags,
            num_subobjects: self.num_subobjects,
            bbox: self.bbox,
            detail_levels: self.detail_levels.deep_view(),
            mass: self.mass,
            center_of_mass: self.center_of_mass,
            moment_of_inertia: self.moment_of_inertia,
            cross_sections: self.cross_sections.deep_view(),
            bsp_lights: self.bsp_lights.deep_view(),
        }
    }
}

/// The three numbers that open the header: the radius, the flags, and the
/// number of subobjects. The current layout stores them in this order,
/// the legacy one with the number of subobjects first.
pub open spec fn spec_header_lead(s: Seq<u8>, pos: int, v: Version) -> Parsed<(u32, u32, u32)> {
    if !has_bytes(s, pos, 12) {
        Err(DecodeError::TruncatedChunk)
    } else {
        let a = le_u32(s.subrange(pos, pos + 4));
        let b = le_u32(s.subrange(pos + 4, pos + 8));
        let c = le_u32(s.subrange(pos + 8, pos + 12));
        if v.current_layout() {
            Ok(((a, b, c), pos + 12))
        } else {
            Ok(((b, c, a), pos + 12))
        }
    }
}

/// The three numbers that open the header, in the order of the layout.
pub open spec fn header_lead_bytes(max_radius: u32, obj_flags: u32, num_subobjects: u32, v: Version) -> Seq<
    u8,
> {
    if v.current_layout() {
        u32_bytes(max_radius) + u32_bytes(obj_flags) + u32_bytes(num_subobjects)
    } else {
        u32_bytes(num_subobjects) + u32_bytes(max_radius) + u32_bytes(obj_flags)
    }
}

/// The mass, the centre of mass and the moment of inertia. Below `V19_03`
/// they are not stored: the mass is fifty, the centre of mass the origin,
/// the moment of inertia the identity scaled by a thousandth.
pub open spec fn spec_mass_block(s: Seq<u8>, pos: int, v: Version) -> Parsed<(u32, Vec3d, Mat3d)> {
    if !v.stores_mass() {
        Ok(((DEFAULT_MASS, Vec3d::spec_zero(), Mat3d::spec_default_inertia()), pos))
    } else if !has_bytes(s, pos, 52) {
        Err(DecodeError::TruncatedChunk)
    } else {
        Ok(
            (
                (
                    le_u32(s.subrange(pos, pos + 4)),
                    spec_vec3d(s, pos + 4)->Ok_0.0,
                    Mat3d {
                        rvec: spec_vec3d(s, pos + 16)->Ok_0.0,
                        uvec: spec_vec3d(s, pos + 28)->Ok_0.0,
                        fvec: spec_vec3d(s, pos + 40)->Ok_0.0,
                    },
                ),
                pos + 52,
            ),
        )
    }
}

/// The mass block; nothing below `V19_03`.
pub open spec fn mass_block_bytes(mass: u32, com: Vec3d, moi: Mat3d, v: Version) -> Seq<u8> {
    if v.stores_mass() {
        u32_bytes(mass) + vec3d_bytes(com) + vec3d_bytes(moi.rvec) + vec3d_bytes(moi.uvec)
            + vec3d_bytes(moi.fvec)
    } else {
        Seq::empty()
    }
}

/// The cross-sections, stored from `V20_14` on: a count and that many
/// pairs. A count of all ones stands for none.
pub open spec fn spec_cross_sections(s: Seq<u8>, pos: int, v: Version) -> Parsed<Seq<CrossSection>> {
    if !v.stores_cross_sections() {
        Ok((Seq::empty(), pos))
    } else {
        match spec_u32(s, pos) {
            Err(e) => Err(e),
            Ok((n, p)) => spec_list_n::<CrossSection>(
                s,
                p,
                if n == u32::MAX {
                    0nat
                } else {
                    n as nat
                },
                v,
            ),
        }
    }
}

/// The light markers, stored from `V20_07` on.
pub open spec fn spec_bsp_lights(s: Seq<u8>, pos: int, v: Version) -> Parsed<Seq<BspLight>> {
    if !v.stores_lights() {
        Ok((Seq::empty(), pos))
    } else {
        spec_list::<BspLight>(s, pos, v)
    }
}

/// The header chunk: the header, and the list of the subobjects that are
/// debris.
#[verifier::opaque]
pub open spec fn spec_header_chunk(s: Seq<u8>, pos: int, v: Version) -> Parsed<
    (SpecObjHeader, Seq<ObjectId>),
> {
    match spec_header_lead(s, pos, v) {
        Err(e) => Err(e),
        Ok(((max_radius, obj_flags, num_subobjects), p1)) => match spec_bbox(s, p1) {
            Err(e) => Err(e),
            Ok((bbox, p2)) => match spec_list::<ObjectId>(s, p2, v) {
                Err(e) => Err(e),
                Ok((detail_levels, p3)) => match spec_list::<ObjectId>(s, p3, v) {
                    Err(e) => Err(e),
                    Ok((debris, p4)) => match spec_mass_block(s, p4, v) {
                        Err(e) => Err(e),
                        Ok(((mass, center_of_mass, moment_of_inertia), p5)) => match spec_cross_sections(
                            s,
                            p5,
                            v,
                        ) {
                            Err(e) => Err(e),
                            Ok((cross_sections, p6)) => match spec_bsp_lights(s, p6, v) {
                                Err(e) => Err(e),
                                Ok((bsp_lights, p7)) => Ok(
                                    (
                                        (
                                            SpecObjHeader {
                                                max_radius,
                                                obj_flags,
                                                num_subobjects,
                                                bbox,
                                                detail_levels,
                                                mass,
                                                center_of_mass,
                                                moment_of_inertia,
                                                cross_sections,
                                                bsp_lights,
                                            },
                                            debris,
                                        ),
                                        p7,
                                    ),
                                ),
                            },
                        },
                    },
                },
            },
        },
    }
}

/// What the writer emits for the header chunk.
pub open spec fn header_chunk_bytes(h: SpecObjHeader, debris: Seq<ObjectId>, v: Version) -> Seq<u8> {
    header_lead_bytes(h.max_radius, h.obj_flags, h.num_subobjects, v) + bbox_bytes(h.bbox)
        + list_bytes::<ObjectId>(h.detail_levels, v) + list_bytes::<ObjectId>(debris, v)
        + mass_block_bytes(h.mass, h.center_of_mass, h.moment_of_inertia, v) + (if v.stores_cross_sections() {
        list_bytes::<CrossSection>(h.cross_sections, v)
    } else {
        Seq::empty()
    }) + (if v.stores_lights() {
        list_bytes::<BspLight>(h.bsp_lights, v)
    } else {
        Seq::empty()
    })
}

/// Whether the counts of the header's lists fit their fields.
pub open spec fn header_chunk_encodable(h: SpecObjHeader, debris: Seq<ObjectId>, v: Version) -> bool {
    &&& h.detail_levels.len() <= u32::MAX
    &&& debris.len() <= u32::MAX
    &&& v.stores_cross_sections() ==> h.cross_sections.len() <= u32::MAX
    &&& v.stores_lights() ==> h.bsp_lights.len() <= u32::MAX
}

fn read_header_lead(buf: &[u8], pos: usize, v: Version) -> (r: Result<
    ((u32, u32, u32), usize),
    DecodeError,
>)
    ensures
        match r {
            Ok((t, p)) => spec_header_lead(buf@, pos as int, v) == Ok::<
                ((u32, u32, u32), int),
                DecodeError,
            >((t, p as int)),
            Err(e) => spec_header_lead(buf@, pos as int, v) == Err::<
                ((u32, u32, u32), int),
                DecodeError,
            >(e),
        },
{
    let (a, p) = read_u32(buf, pos)?;
    let (b, p) = read_u32(buf, p)?;
    let (c, p) = read_u32(buf, p)?;
    if v.current_layout() {
        Ok(((a, b, c), p))
    } else {
        Ok(((b, c, a), p))
    }
}

fn read_mass_block(buf: &[u8], pos: usize, v: Version) -> (r: Result<
    ((u32, Vec3d, Mat3d), usize),
    DecodeError,
>)
    ensures
        match r {
            Ok((t, p)) => spec_mass_block(buf@, pos as int, v) == Ok::<
                ((u32, Vec3d, Mat3d), int),
                DecodeError,
            >((t, p as int)),
            Err(e) => spec_mass_block(buf@, pos as int, v) == Err::<
                ((u32, Vec3d, Mat3d), int),
                DecodeError,
            >(e),
        },
{
    if !v.stores_mass() {
        return Ok(((DEFAULT_MASS, Vec3d::zero(), Mat3d::default_inertia()), pos));
    }
    let (mass, p) = read_u32(buf, pos)?;
    let (com, p) = read_vec3d(buf, p)?;
    let (rvec, p) = read_vec3d(buf, p)?;
    let (uvec, p) = read_vec3d(buf, p)?;
    let (fvec, p) = read_vec3d(buf, p)?;
    Ok(((mass, com, Mat3d { rvec, uvec, fvec }), p))
}

fn read_cross_sections(buf: &[u8], pos: usize, v: Version) -> (r: Result<
    (Vec<CrossSection>, usize),
    DecodeError,
>)
    ensures
        parsed(r, spec_cross_sections(buf@, pos as int, v)),
{
    if !v.stores_cross_sections() {
        let out: Vec<CrossSection> = Vec::new();
        assert(out.deep_view() =~= Seq::<CrossSection>::empty());
        return Ok((out, pos));
    }
    let (n, p) = read_u32(buf, pos)?;
    let n: usize = if n == 0xffff_ffff {
        0
    } else {
        n as usize
    };
    read_list_n::<CrossSection>(buf, p, n, v)
}

fn read_bsp_lights(buf: &[u8], pos: usize, v: Version) -> (r: Result<
    (Vec<BspLight>, usize),
    DecodeError,
>)
    ensures
        parsed(r, spec_bsp_lights(buf@, pos as int, v)),
{
    if !v.stores_lights() {
        let out: Vec<BspLight> = Vec::new();
        assert(out.deep_view() =~= Seq::<BspLight>::empty());
        return Ok((out, pos));
    }
    read_list::<BspLight>(buf, pos, v)
}

/// Reads the header chunk's content: the header and the debris list.
pub fn read_header_chunk(buf: &[u8], pos: usize, v: Version) -> (r: Result<
    (ObjHeader, Vec<ObjectId>, usize),
    DecodeError,
>)
    ensures
        match r {
            Ok((h, d, p)) => spec_header_chunk(buf@, pos as int, v) == Ok::<
                ((SpecObjHeader, Seq<ObjectId>), int),
                DecodeError,
            >(((h.deep_view(), d.deep_view()), p as int)),
            Err(e) => spec_header_chunk(buf@, pos as int, v) == Err::<
                ((SpecObjHeader, Seq<ObjectId>), int),
                DecodeError,
            >(e),
        },
        r is Ok && !v.stores_mass() ==> r->Ok_0.0.mass == DEFAULT_MASS
            && r->Ok_0.0.center_of_mass == Vec3d::spec_zero() && r->Ok_0.0.moment_of_inertia
            == Mat3d::spec_default_inertia(),
{
    reveal(spec_header_chunk);
    let ((max_radius, obj_flags, num_subobjects), p) = read_header_lead(buf, pos, v)?;
    let (bbox, p) = read_bbox(buf, p)?;
    let (detail_levels, p) = read_list::<ObjectId>(buf, p, v)?;
    let (debris, p) = read_list::<ObjectId>(buf, p, v)?;
    let ((mass, center_of_mass, moment_of_inertia), p) = read_mass_block(buf, p, v)?;
    let (cross_sections, p) = read_cross_sections(buf, p, v)?;
    let (bsp_lights, p) = read_bsp_lights(buf, p, v)?;
    Ok(
        (
            ObjHeader {
                max_radius,
                obj_flags,
                num_subobjects,
                bbox,
                detail_levels,
                mass,
                center_of_mass,
                moment_of_inertia,
                cross_sections,
                bsp_lights,
            },
            debris,
            p,
        ),
    )
}

fn write_header_lead(w: &mut Vec<u8>, h: &ObjHeader, v: Version)
    ensures
        final(w)@ == old(w)@ + header_lead_bytes(h.max_radius, h.obj_flags, h.num_subobjects, v),
{
    if v.current_layout() {
        write_u32(w, h.max_radius);
        write_u32(w, h.obj_flags);
        write_u32(w, h.num_subobjects);
    } else {
        write_u32(w, h.num_subobjects);
        write_u32(w, h.max_radius);
        write_u32(w, h.obj_flags);
    }
    assert(w@ =~= old(w)@ + header_lead_bytes(h.max_radius, h.obj_flags, h.num_subobjects, v));
}

fn write_mass_block(w: &mut Vec<u8>, h: &ObjHeader, v: Version)
    ensures
        final(w)@ == old(w)@ + mass_block_bytes(h.mass, h.center_of_mass, h.moment_of_inertia, v),
{
    if v.stores_mass() {
        write_u32(w, h.mass);
        write_vec3d(w, h.center_of_mass);
        write_vec3d(w, h.moment_of_inertia.rvec);
        write_vec3d(w, h.moment_of_inertia.uvec);
        write_vec3d(w, h.moment_of_inertia.fvec);
    }
    assert(w@ =~= old(w)@ + mass_block_bytes(h.mass, h.center_of_mass, h.moment_of_inertia, v));
}

/// Writes a list if the revision stores it, and nothing if it does not.
fn write_list_if<T: Record>(w: &mut Vec<u8>, stored: bool, xs: &Vec<T>, v: Version) -> (r: Result<
    (),
    EncodeError,
>)
    ensures
        r is Ok <==> (stored ==> list_encodable::<T>(xs.deep_view(), v)),
        r is Ok ==> final(w)@ == old(w)@ + (if stored {
            list_bytes::<T>(xs.deep_view(), v)
        } else {
            Seq::<u8>::empty()
        }),
{
    if stored {
        xs.write_to(w, v)
    } else {
        assert(w@ + Seq::<u8>::empty() =~= w@);
        Ok(())
    }
}

/// Seven pieces, one after the other.
proof fn lemma_seven(
    pre: Seq<u8>,
    a: Seq<u8>,
    b: Seq<u8>,
    c: Seq<u8>,
    d: Seq<u8>,
    e: Seq<u8>,
    f: Seq<u8>,
    g: Seq<u8>,
)
    ensures
        pre + a + b + c + d + e + f + g == pre + (a + b + c + d + e + f + g),
{
    assert(pre + a + b + c + d + e + f + g =~= pre + (a + b + c + d + e + f + g));
}

/// Writes the header chunk's content.
pub fn write_header_chunk(w: &mut Vec<u8>, h: &ObjHeader, debris: &Vec<ObjectId>, v: Version) -> (r:
    Result<(), EncodeError>)
    ensures
        r is Ok <==> header_chunk_encodable(h.deep_view(), debris.deep_view(), v),
        r is Ok ==> final(w)@ == old(w)@ + header_chunk_bytes(h.deep_view(), debris.deep_view(), v),
{
    let ghost hv = h.deep_view();
    write_header_lead(w, h, v);
    write_bbox(w, h.bbox);
    match h.detail_levels.write_to(w, v) {
        Err(e) => {
            return Err(e);
        },
        Ok(()) => {},
    }
    match debris.write_to(w, v) {
        Err(e) => {
            return Err(e);
        },
        Ok(()) => {},
    }
    write_mass_block(w, h, v);
    match write_list_if::<CrossSection>(w, v.stores_cross_sections(), &h.cross_sections, v) {
        Err(e) => {
            return Err(e);
        },
        Ok(()) => {},
    }
    match write_list_if::<BspLight>(w, v.stores_lights(), &h.bsp_lights, v) {
        Err(e) => {
            return Err(e);
        },
        Ok(()) => {},
    }
    proof {
        lemma_seven(
            old(w)@,
            header_lead_bytes(h.max_radius, h.obj_flags, h.num_subobjects, v),
            bbox_bytes(h.bbox),
            list_bytes::<ObjectId>(hv.detail_levels, v),
            list_bytes::<ObjectId>(debris.deep_view(), v),
            mass_block_bytes(h.mass, h.center_of_mass, h.moment_of_inertia, v),
            if v.stores_cross_sections() {
                list_bytes::<CrossSection>(hv.cross_sections, v)
            } else {
                Seq::empty()
            },
            if v.stores_lights() {
                list_bytes::<BspLight>(hv.bsp_lights, v)
            } else {
                Seq::empty()
            },
        );
    }
    Ok(())
}

} // verus!
