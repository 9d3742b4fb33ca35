//! The flat records of a model, each with its place in the format.
//!
//! A record is read field by field in the order the format stores them,
//! and written in the same order. Where a revision does not store a
//! field, the reader fills in the field's default and the writer leaves
//! it out.

use vstd::prelude::*;
use crate::bytes::{
    items_bytes, items_encodable, items_faithful, lemma_items_roundtrip, lemma_stands_split,
    lemma_u32_stands, read_list_n, read_u32, spec_list_n, spec_u32, u32_bytes, write_items,
    write_u32, Parsed, Record, Text,
};
use crate::error::{DecodeError, EncodeError};
use crate::geom::Vec3d;
use crate::ids::{ObjectId, PathId, VertexId};
use crate::version::Version;

verus! {

/// One end of a docking bay: where it is and which way it faces.
#[derive(Clone, Copy, PartialEq, Eq, Debug, Hash)]
pub struct DockingPoint {
    pub position: Vec3d,
    pub normal: Vec3d,
}

impl View for DockingPoint {
    type V = DockingPoint;

    open spec fn view(&self) -> DockingPoint {
        *self
    }
}

impl DeepView for DockingPoint {
    type V = DockingPoint;

    open spec fn deep_view(&self) -> DockingPoint {
        *self
    }
}

impl Record for DockingPoint {
    open spec fn parse(s: Seq<u8>, pos: int, ver: Version) -> Parsed<DockingPoint> {
        match <Vec3d as Record>::parse(s, pos, ver) {
            Err(e) => Err(e),
            Ok((position, p1)) => match <Vec3d as Record>::parse(s, p1, ver) {
                Err(e) => Err(e),
                Ok((normal, p2)) => Ok((DockingPoint { position, normal }, p2)),
            },
        }
    }

    open spec fn bytes(m: DockingPoint, ver: Version) -> Seq<u8> {
        <Vec3d as Record>::bytes(m.position, ver)
        + <Vec3d as Record>::bytes(m.normal, ver)
    }

    open spec fn encodable(m: DockingPoint, ver: Version) -> bool {
        &&& <Vec3d as Record>::encodable(m.position, ver)
        &&& <Vec3d as Record>::encodable(m.normal, ver)
    }

    open spec fn faithful(m: DockingPoint, ver: Version) -> bool {
        &&& <Vec3d as Record>::faithful(m.position, ver)
        &&& <Vec3d as Record>::faithful(m.normal, ver)
    }

    proof fn lemma_roundtrip(m: DockingPoint, ver: Version, s: Seq<u8>, pos: int) {
        let b0 = <Vec3d as Record>::bytes(m.position, ver);
        let b1 = <Vec3d as Record>::bytes(m.normal, ver);
        lemma_stands_split(s, pos, b0, b1);
        let p0 = pos;
        let p1 = p0 + b0.len();
        <Vec3d as Record>::lemma_roundtrip(m.position, ver, s, p0);
        <Vec3d as Record>::lemma_roundtrip(m.normal, ver, s, p1);
    }

    fn read(buf: &[u8], pos: usize, ver: Version) -> (r: Result<(DockingPoint, usize), DecodeError>) {
        let p = pos;
        let (position, p) = <Vec3d as Record>::read(buf, p, ver)?;
        let (normal, p) = <Vec3d as Record>::read(buf, p, ver)?;
        Ok((DockingPoint { position, normal }, p))
    }

    fn write_to(&self, w: &mut Vec<u8>, ver: Version) -> (r: Result<(), EncodeError>) {
        match self.position.write_to(w, ver) {
            Err(e) => {
                return Err(e);
            },
            Ok(()) => {},
        }
        match self.normal.write_to(w, ver) {
            Err(e) => {
                return Err(e);
            },
            Ok(()) => {},
        }
        assert(w@ =~= old(w)@ + Self::bytes(self.deep_view(), ver));
        Ok(())
    }
}

/// A glow point: where it is, which way it faces, how large it is.
#[derive(Clone, Copy, PartialEq, Eq, Debug, Hash)]
pub struct GlowPoint {
    pub position: Vec3d,
    pub normal: Vec3d,
    pub radius: u32,
}

impl View for GlowPoint {
    type V = GlowPoint;

    open spec fn view(&self) -> GlowPoint {
        *self
    }
}

impl DeepView for GlowPoint {
    type V = GlowPoint;

    open spec fn deep_view(&self) -> GlowPoint {
        *self
    }
}

impl Record for GlowPoint {
    open spec fn parse(s: Seq<u8>, pos: int, ver: Version) -> Parsed<GlowPoint> {
        match <Vec3d as Record>::parse(s, pos, ver) {
            Err(e) => Err(e),
            Ok((position, p1)) => match <Vec3d as Record>::parse(s, p1, ver) {
                Err(e) => Err(e),
                Ok((normal, p2)) => match <u32 as Record>::parse(s, p2, ver) {
                    Err(e) => Err(e),
                    Ok((radius, p3)) => Ok((GlowPoint { position, normal, radius }, p3)),
                },
            },
        }
    }

    open spec fn bytes(m: GlowPoint, ver: Version) -> Seq<u8> {
        <Vec3d as Record>::bytes(m.position, ver)
        + <Vec3d as Record>::bytes(m.normal, ver)
        + <u32 as Record>::bytes(m.radius, ver)
    }

    open spec fn encodable(m: GlowPoint, ver: Version) -> bool {
        &&& <Vec3d as Record>::encodable(m.position, ver)
        &&& <Vec3d as Record>::encodable(m.normal, ver)
        &&& <u32 as Record>::encodable(m.radius, ver)
    }

    open spec fn faithful(m: GlowPoint, ver: Version) -> bool {
        &&& <Vec3d as Record>::faithful(m.position, ver)
        &&& <Vec3d as Record>::faithful(m.normal, ver)
        &&& <u32 as Record>::faithful(m.radius, ver)
    }

    proof fn lemma_roundtrip(m: GlowPoint, ver: Version, s: Seq<u8>, pos: int) {
        let b0 = <Vec3d as Record>::bytes(m.position, ver);
        let b1 = <Vec3d as Record>::bytes(m.normal, ver);
        let b2 = <u32 as Record>::bytes(m.radius, ver);
        lemma_stands_split(s, pos, b0 + b1, b2);
        lemma_stands_split(s, pos, b0, b1);
        let p0 = pos;
        let p1 = p0 + b0.len();
        let p2 = p1 + b1.len();
        <Vec3d as Record>::lemma_roundtrip(m.position, ver, s, p0);
        <Vec3d as Record>::lemma_roundtrip(m.normal, ver, s, p1);
        <u32 as Record>::lemma_roundtrip(m.radius, ver, s, p2);
    }

    fn read(buf: &[u8], pos: usize, ver: Version) -> (r: Result<(GlowPoint, usize), DecodeError>) {
        let p = pos;
        let (position, p) = <Vec3d as Record>::read(buf, p, ver)?;
        let (normal, p) = <Vec3d as Record>::read(buf, p, ver)?;
        let (radius, p) = <u32 as Record>::read(buf, p, ver)?;
        Ok((GlowPoint { position, normal, radius }, p))
    }

    fn write_to(&self, w: &mut Vec<u8>, ver: Version) -> (r: Result<(), EncodeError>) {
        match self.position.write_to(w, ver) {
            Err(e) => {
                return Err(e);
            },
            Ok(()) => {},
        }
        match self.normal.write_to(w, ver) {
            Err(e) => {
                return Err(e);
            },
            Ok(()) => {},
        }
        match self.radius.write_to(w, ver) {
            Err(e) => {
                return Err(e);
            },
            Ok(()) => {},
        }
        assert(w@ =~= old(w)@ + Self::bytes(self.deep_view(), ver));
        Ok(())
    }
}

/// A thruster glow. Up to `V20_04` the format stores no radius, and the
/// radius is one.
#[derive(Clone, Copy, PartialEq, Eq, Debug, Hash)]
pub struct ThrusterGlow {
    pub position: Vec3d,
    pub normal: Vec3d,
    pub radius: u32,
}

impl View for ThrusterGlow {
    type V = ThrusterGlow;

    open spec fn view(&self) -> ThrusterGlow {
        *self
    }
}

impl DeepView for ThrusterGlow {
    type V = ThrusterGlow;

    open spec fn deep_view(&self) -> ThrusterGlow {
        *self
    }
}

impl Record for ThrusterGlow {
    open spec fn parse(s: Seq<u8>, pos: int, ver: Version) -> Parsed<ThrusterGlow> {
        match <Vec3d as Record>::parse(s, pos, ver) {
            Err(e) => Err(e),
            Ok((position, p1)) => match <Vec3d as Record>::parse(s, p1, ver) {
                Err(e) => Err(e),
                Ok((normal, p2)) => match (if ver.stores_glow_radius() {
                    <u32 as Record>::parse(s, p2, ver)
                } else {
                    Ok::<(u32, int), DecodeError>((0x3f80_0000u32, p2))
                }) {
                    Err(e) => Err(e),
                    Ok((radius, p3)) => Ok((ThrusterGlow { position, normal, radius }, p3)),
                },
            },
        }
    }

    open spec fn bytes(m: ThrusterGlow, ver: Version) -> Seq<u8> {
        <Vec3d as Record>::bytes(m.position, ver)
        + <Vec3d as Record>::bytes(m.normal, ver)
        + (if ver.stores_glow_radius() {
            <u32 as Record>::bytes(m.radius, ver)
        } else {
            Seq::<u8>::empty()
        })
    }

    open spec fn encodable(m: ThrusterGlow, ver: Version) -> bool {
        &&& <Vec3d as Record>::encodable(m.position, ver)
        &&& <Vec3d as Record>::encodable(m.normal, ver)
        &&& (ver.stores_glow_radius()) ==> <u32 as Record>::encodable(m.radius, ver)
    }

    open spec fn faithful(m: ThrusterGlow, ver: Version) -> bool {
        &&& <Vec3d as Record>::faithful(m.position, ver)
        &&& <Vec3d as Record>::faithful(m.normal, ver)
        &&& (ver.stores_glow_radius()) ==> <u32 as Record>::faithful(m.radius, ver)
        &&& !(ver.stores_glow_radius()) ==> m.radius == 0x3f80_0000u32
    }

    proof fn lemma_roundtrip(m: ThrusterGlow, ver: Version, s: Seq<u8>, pos: int) {
        let b0 = <Vec3d as Record>::bytes(m.position, ver);
        let b1 = <Vec3d as Record>::bytes(m.normal, ver);
        let b2 = (if ver.stores_glow_radius() {
            <u32 as Record>::bytes(m.radius, ver)
        } else {
            Seq::<u8>::empty()
        });
        lemma_stands_split(s, pos, b0 + b1, b2);
        lemma_stands_split(s, pos, b0, b1);
        let p0 = pos;
        let p1 = p0 + b0.len();
        let p2 = p1 + b1.len();
        <Vec3d as Record>::lemma_roundtrip(m.position, ver, s, p0);
        <Vec3d as Record>::lemma_roundtrip(m.normal, ver, s, p1);
        if ver.stores_glow_radius() {
            <u32 as Record>::lemma_roundtrip(m.radius, ver, s, p2);
        }
    }

    fn read(buf: &[u8], pos: usize, ver: Version) -> (r: Result<(ThrusterGlow, usize), DecodeError>) {
        let p = pos;
        let (position, p) = <Vec3d as Record>::read(buf, p, ver)?;
        let (normal, p) = <Vec3d as Record>::read(buf, p, ver)?;
        let (radius, p) = if ver.stores_glow_radius() {
            <u32 as Record>::read(buf, p, ver)?
        } else {
            (0x3f80_0000, p)
        };
        Ok((ThrusterGlow { position, normal, radius }, p))
    }

    fn write_to(&self, w: &mut Vec<u8>, ver: Version) -> (r: Result<(), EncodeError>) {
        match self.position.write_to(w, ver) {
            Err(e) => {
                return Err(e);
            },
            Ok(()) => {},
        }
        match self.normal.write_to(w, ver) {
            Err(e) => {
                return Err(e);
            },
            Ok(()) => {},
        }
        if ver.stores_glow_radius() {
            match self.radius.write_to(w, ver) {
                Err(e) => {
                    return Err(e);
                },
                Ok(()) => {},
            }
        }
        assert(w@ =~= old(w)@ + Self::bytes(self.deep_view(), ver));
        Ok(())
    }
}

/// A weapon hardpoint. The angle offset is stored from `V21_18` on, but not
/// in `V22_00`; where it is not stored it is zero.
#[derive(Clone, Copy, PartialEq, Eq, Debug, Hash)]
pub struct WeaponHardpoint {
    pub position: Vec3d,
    pub normal: Vec3d,
    pub offset: u32,
}

impl View for WeaponHardpoint {
    type V = WeaponHardpoint;

    open spec fn view(&self) -> WeaponHardpoint {
        *self
    }
}

impl DeepView for WeaponHardpoint {
    type V = WeaponHardpoint;

    open spec fn deep_view(&self) -> WeaponHardpoint {
        *self
    }
}

impl Record for WeaponHardpoint {
    open spec fn parse(s: Seq<u8>, pos: int, ver: Version) -> Parsed<WeaponHardpoint> {
        match <Vec3d as Record>::parse(s, pos, ver) {
            Err(e) => Err(e),
            Ok((position, p1)) => match <Vec3d as Record>::parse(s, p1, ver) {
                Err(e) => Err(e),
                Ok((normal, p2)) => match (if ver.stores_hardpoint_offset() {
                    <u32 as Record>::parse(s, p2, ver)
                } else {
                    Ok::<(u32, int), DecodeError>((0u32, p2))
                }) {
                    Err(e) => Err(e),
                    Ok((offset, p3)) => Ok((WeaponHardpoint { position, normal, offset }, p3)),
                },
            },
        }
    }

    open spec fn bytes(m: WeaponHardpoint, ver: Version) -> Seq<u8> {
        <Vec3d as Record>::bytes(m.position, ver)
        + <Vec3d as Record>::bytes(m.normal, ver)
        + (if ver.stores_hardpoint_offset() {
            <u32 as Record>::bytes(m.offset, ver)
        } else {
            Seq::<u8>::empty()
        })
    }

    open spec fn encodable(m: WeaponHardpoint, ver: Version) -> bool {
        &&& <Vec3d as Record>::encodable(m.position, ver)
        &&& <Vec3d as Record>::encodable(m.normal, ver)
        &&& (ver.stores_hardpoint_offset()) ==> <u32 as Record>::encodable(m.offset, ver)
    }

    open spec fn faithful(m: WeaponHardpoint, ver: Version) -> bool {
        &&& <Vec3d as Record>::faithful(m.position, ver)
        &&& <Vec3d as Record>::faithful(m.normal, ver)
        &&& (ver.stores_hardpoint_offset()) ==> <u32 as Record>::faithful(m.offset, ver)
        &&& !(ver.stores_hardpoint_offset()) ==> m.offset == 0u32
    }

    proof fn lemma_roundtrip(m: WeaponHardpoint, ver: Version, s: Seq<u8>, pos: int) {
        let b0 = <Vec3d as Record>::bytes(m.position, ver);
        let b1 = <Vec3d as Record>::bytes(m.normal, ver);
        let b2 = (if ver.stores_hardpoint_offset() {
            <u32 as Record>::bytes(m.offset, ver)
        } else {
            Seq::<u8>::empty()
        });
        lemma_stands_split(s, pos, b0 + b1, b2);
        lemma_stands_split(s, pos, b0, b1);
        let p0 = pos;
        let p1 = p0 + b0.len();
        let p2 = p1 + b1.len();
        <Vec3d as Record>::lemma_roundtrip(m.position, ver, s, p0);
        <Vec3d as Record>::lemma_roundtrip(m.normal, ver, s, p1);
        if ver.stores_hardpoint_offset() {
            <u32 as Record>::lemma_roundtrip(m.offset, ver, s, p2);
        }
    }

    fn read(buf: &[u8], pos: usize, ver: Version) -> (r: Result<(WeaponHardpoint, usize), DecodeError>) {
        let p = pos;
        let (position, p) = <Vec3d as Record>::read(buf, p, ver)?;
        let (normal, p) = <Vec3d as Record>::read(buf, p, ver)?;
        let (offset, p) = if ver.stores_hardpoint_offset() {
            <u32 as Record>::read(buf, p, ver)?
        } else {
            (0, p)
        };
        Ok((WeaponHardpoint { position, normal, offset }, p))
    }

    fn write_to(&self, w: &mut Vec<u8>, ver: Version) -> (r: Result<(), EncodeError>) {
        match self.position.write_to(w, ver) {
            Err(e) => {
                return Err(e);
            },
            Ok(()) => {},
        }
        match self.normal.write_to(w, ver) {
            Err(e) => {
                return Err(e);
            },
            Ok(()) => {},
        }
        if ver.stores_hardpoint_offset() {
            match self.offset.write_to(w, ver) {
                Err(e) => {
                    return Err(e);
                },
                Ok(()) => {},
            }
        }
        assert(w@ =~= old(w)@ + Self::bytes(self.deep_view(), ver));
        Ok(())
    }
}

/// An eye point, attached to a subobject.
#[derive(Clone, Copy, PartialEq, Eq, Debug, Hash)]
pub struct EyePoint {
    pub attached_subobj: ObjectId,
    pub offset: Vec3d,
    pub normal: Vec3d,
}

impl View for EyePoint {
    type V = EyePoint;

    open spec fn view(&self) -> EyePoint {
        *self
    }
}

impl DeepView for EyePoint {
    type V = EyePoint;

    open spec fn deep_view(&self) -> EyePoint {
        *self
    }
}

impl Record for EyePoint {
    open spec fn parse(s: Seq<u8>, pos: int, ver: Version) -> Parsed<EyePoint> {
        match <ObjectId as Record>::parse(s, pos, ver) {
            Err(e) => Err(e),
            Ok((attached_subobj, p1)) => match <Vec3d as Record>::parse(s, p1, ver) {
                Err(e) => Err(e),
                Ok((offset, p2)) => match <Vec3d as Record>::parse(s, p2, ver) {
                    Err(e) => Err(e),
                    Ok((normal, p3)) => Ok((EyePoint { attached_subobj, offset, normal }, p3)),
                },
            },
        }
    }

    open spec fn bytes(m: EyePoint, ver: Version) -> Seq<u8> {
        <ObjectId as Record>::bytes(m.attached_subobj, ver)
        + <Vec3d as Record>::bytes(m.offset, ver)
        + <Vec3d as Record>::bytes(m.normal, ver)
    }

    open spec fn encodable(m: EyePoint, ver: Version) -> bool {
        &&& <ObjectId as Record>::encodable(m.attached_subobj, ver)
        &&& <Vec3d as Record>::encodable(m.offset, ver)
        &&& <Vec3d as Record>::encodable(m.normal, ver)
    }

    open spec fn faithful(m: EyePoint, ver: Version) -> bool {
        &&& <ObjectId as Record>::faithful(m.attached_subobj, ver)
        &&& <Vec3d as Record>::faithful(m.offset, ver)
        &&& <Vec3d as Record>::faithful(m.normal, ver)
    }

    proof fn lemma_roundtrip(m: EyePoint, ver: Version, s: Seq<u8>, pos: int) {
        let b0 = <ObjectId as Record>::bytes(m.attached_subobj, ver);
        let b1 = <Vec3d as Record>::bytes(m.offset, ver);
        let b2 = <Vec3d as Record>::bytes(m.normal, ver);
        lemma_stands_split(s, pos, b0 + b1, b2);
        lemma_stands_split(s, pos, b0, b1);
        let p0 = pos;
        let p1 = p0 + b0.len();
        let p2 = p1 + b1.len();
        <ObjectId as Record>::lemma_roundtrip(m.attached_subobj, ver, s, p0);
        <Vec3d as Record>::lemma_roundtrip(m.offset, ver, s, p1);
        <Vec3d as Record>::lemma_roundtrip(m.normal, ver, s, p2);
    }

    fn read(buf: &[u8], pos: usize, ver: Version) -> (r: Result<(EyePoint, usize), DecodeError>) {
        let p = pos;
        let (attached_subobj, p) = <ObjectId as Record>::read(buf, p, ver)?;
        let (offset, p) = <Vec3d as Record>::read(buf, p, ver)?;
        let (normal, p) = <Vec3d as Record>::read(buf, p, ver)?;
        Ok((EyePoint { attached_subobj, offset, normal }, p))
    }

    fn write_to(&self, w: &mut Vec<u8>, ver: Version) -> (r: Result<(), EncodeError>) {
        match self.attached_subobj.write_to(w, ver) {
            Err(e) => {
                return Err(e);
            },
            Ok(()) => {},
        }
        match self.offset.write_to(w, ver) {
            Err(e) => {
                return Err(e);
            },
            Ok(()) => {},
        }
        match self.normal.write_to(w, ver) {
            Err(e) => {
                return Err(e);
            },
            Ok(()) => {},
        }
        assert(w@ =~= old(w)@ + Self::bytes(self.deep_view(), ver));
        Ok(())
    }
}

/// A cross-section of the hull: a depth and the radius there.
#[derive(Clone, Copy, PartialEq, Eq, Debug, Hash)]
pub struct CrossSection {
    pub depth: u32,
    pub radius: u32,
}

impl View for CrossSection {
    type V = CrossSection;

    open spec fn view(&self) -> CrossSection {
        *self
    }
}

impl DeepView for CrossSection {
    type V = CrossSection;

    open spec fn deep_view(&self) -> CrossSection {
        *self
    }
}

impl Record for CrossSection {
    open spec fn parse(s: Seq<u8>, pos: int, ver: Version) -> Parsed<CrossSection> {
        match <u32 as Record>::parse(s, pos, ver) {
            Err(e) => Err(e),
            Ok((depth, p1)) => match <u32 as Record>::parse(s, p1, ver) {
                Err(e) => Err(e),
                Ok((radius, p2)) => Ok((CrossSection { depth, radius }, p2)),
            },
        }
    }

    open spec fn bytes(m: CrossSection, ver: Version) -> Seq<u8> {
        <u32 as Record>::bytes(m.depth, ver)
        + <u32 as Record>::bytes(m.radius, ver)
    }

    open spec fn encodable(m: CrossSection, ver: Version) -> bool {
        &&& <u32 as Record>::encodable(m.depth, ver)
        &&& <u32 as Record>::encodable(m.radius, ver)
    }

    open spec fn faithful(m: CrossSection, ver: Version) -> bool {
        &&& <u32 as Record>::faithful(m.depth, ver)
        &&& <u32 as Record>::faithful(m.radius, ver)
    }

    proof fn lemma_roundtrip(m: CrossSection, ver: Version, s: Seq<u8>, pos: int) {
        let b0 = <u32 as Record>::bytes(m.depth, ver);
        let b1 = <u32 as Record>::bytes(m.radius, ver);
        lemma_stands_split(s, pos, b0, b1);
        let p0 = pos;
        let p1 = p0 + b0.len();
        <u32 as Record>::lemma_roundtrip(m.depth, ver, s, p0);
        <u32 as Record>::lemma_roundtrip(m.radius, ver, s, p1);
    }

    fn read(buf: &[u8], pos: usize, ver: Version) -> (r: Result<(CrossSection, usize), DecodeError>) {
        let p = pos;
        let (depth, p) = <u32 as Record>::read(buf, p, ver)?;
        let (radius, p) = <u32 as Record>::read(buf, p, ver)?;
        Ok((CrossSection { depth, radius }, p))
    }

    fn write_to(&self, w: &mut Vec<u8>, ver: Version) -> (r: Result<(), EncodeError>) {
        match self.depth.write_to(w, ver) {
            Err(e) => {
                return Err(e);
            },
            Ok(()) => {},
        }
        match self.radius.write_to(w, ver) {
            Err(e) => {
                return Err(e);
            },
            Ok(()) => {},
        }
        assert(w@ =~= old(w)@ + Self::bytes(self.deep_view(), ver));
        Ok(())
    }
}

/// A corner of an insignia face: a vertex and its place on the texture.
#[derive(Clone, Copy, PartialEq, Eq, Debug, Hash)]
pub struct UvVertex {
    pub vertex_id: VertexId,
    pub u: u32,
    pub v: u32,
}

impl View for UvVertex {
    type V = UvVertex;

    open spec fn view(&self) -> UvVertex {
        *self
    }
}

impl DeepView for UvVertex {
    type V = UvVertex;

    open spec fn deep_view(&self) -> UvVertex {
        *self
    }
}

impl Record for UvVertex {
    open spec fn parse(s: Seq<u8>, pos: int, ver: Version) -> Parsed<UvVertex> {
        match <VertexId as Record>::parse(s, pos, ver) {
            Err(e) => Err(e),
            Ok((vertex_id, p1)) => match <u32 as Record>::parse(s, p1, ver) {
                Err(e) => Err(e),
                Ok((u, p2)) => match <u32 as Record>::parse(s, p2, ver) {
                    Err(e) => Err(e),
                    Ok((v, p3)) => Ok((UvVertex { vertex_id, u, v }, p3)),
                },
            },
        }
    }

    open spec fn bytes(m: UvVertex, ver: Version) -> Seq<u8> {
        <VertexId as Record>::bytes(m.vertex_id, ver)
        + <u32 as Record>::bytes(m.u, ver)
        + <u32 as Record>::bytes(m.v, ver)
    }

    open spec fn encodable(m: UvVertex, ver: Version) -> bool {
        &&& <VertexId as Record>::encodable(m.vertex_id, ver)
        &&& <u32 as Record>::encodable(m.u, ver)
        &&& <u32 as Record>::encodable(m.v, ver)
    }

    open spec fn faithful(m: UvVertex, ver: Version) -> bool {
        &&& <VertexId as Record>::faithful(m.vertex_id, ver)
        &&& <u32 as Record>::faithful(m.u, ver)
        &&& <u32 as Record>::faithful(m.v, ver)
    }

    proof fn lemma_roundtrip(m: UvVertex, ver: Version, s: Seq<u8>, pos: int) {
        let b0 = <VertexId as Record>::bytes(m.vertex_id, ver);
        let b1 = <u32 as Record>::bytes(m.u, ver);
        let b2 = <u32 as Record>::bytes(m.v, ver);
        lemma_stands_split(s, pos, b0 + b1, b2);
        lemma_stands_split(s, pos, b0, b1);
        let p0 = pos;
        let p1 = p0 + b0.len();
        let p2 = p1 + b1.len();
        <VertexId as Record>::lemma_roundtrip(m.vertex_id, ver, s, p0);
        <u32 as Record>::lemma_roundtrip(m.u, ver, s, p1);
        <u32 as Record>::lemma_roundtrip(m.v, ver, s, p2);
    }

    fn read(buf: &[u8], pos: usize, ver: Version) -> (r: Result<(UvVertex, usize), DecodeError>) {
        let p = pos;
        let (vertex_id, p) = <VertexId as Record>::read(buf, p, ver)?;
        let (u, p) = <u32 as Record>::read(buf, p, ver)?;
        let (v, p) = <u32 as Record>::read(buf, p, ver)?;
        Ok((UvVertex { vertex_id, u, v }, p))
    }

    fn write_to(&self, w: &mut Vec<u8>, ver: Version) -> (r: Result<(), EncodeError>) {
        match self.vertex_id.write_to(w, ver) {
            Err(e) => {
                return Err(e);
            },
            Ok(()) => {},
        }
        match self.u.write_to(w, ver) {
            Err(e) => {
                return Err(e);
            },
            Ok(()) => {},
        }
        match self.v.write_to(w, ver) {
            Err(e) => {
                return Err(e);
            },
            Ok(()) => {},
        }
        assert(w@ =~= old(w)@ + Self::bytes(self.deep_view(), ver));
        Ok(())
    }
}

/// A triangle of an insignia.
#[derive(Clone, Copy, PartialEq, Eq, Debug, Hash)]
pub struct InsigniaFace {
    pub a: UvVertex,
    pub b: UvVertex,
    pub c: UvVertex,
}

impl View for InsigniaFace {
    type V = InsigniaFace;

    open spec fn view(&self) -> InsigniaFace {
        *self
    }
}

impl DeepView for InsigniaFace {
    type V = InsigniaFace;

    open spec fn deep_view(&self) -> InsigniaFace {
        *self
    }
}

impl Record for InsigniaFace {
    open spec fn parse(s: Seq<u8>, pos: int, ver: Version) -> Parsed<InsigniaFace> {
        match <UvVertex as Record>::parse(s, pos, ver) {
            Err(e) => Err(e),
            Ok((a, p1)) => match <UvVertex as Record>::parse(s, p1, ver) {
                Err(e) => Err(e),
                Ok((b, p2)) => match <UvVertex as Record>::parse(s, p2, ver) {
                    Err(e) => Err(e),
                    Ok((c, p3)) => Ok((InsigniaFace { a, b, c }, p3)),
                },
            },
        }
    }

    open spec fn bytes(m: InsigniaFace, ver: Version) -> Seq<u8> {
        <UvVertex as Record>::bytes(m.a, ver)
        + <UvVertex as Record>::bytes(m.b, ver)
        + <UvVertex as Record>::bytes(m.c, ver)
    }

    open spec fn encodable(m: InsigniaFace, ver: Version) -> bool {
        &&& <UvVertex as Record>::encodable(m.a, ver)
        &&& <UvVertex as Record>::encodable(m.b, ver)
        &&& <UvVertex as Record>::encodable(m.c, ver)
    }

    open spec fn faithful(m: InsigniaFace, ver: Version) -> bool {
        &&& <UvVertex as Record>::faithful(m.a, ver)
        &&& <UvVertex as Record>::faithful(m.b, ver)
        &&& <UvVertex as Record>::faithful(m.c, ver)
    }

    proof fn lemma_roundtrip(m: InsigniaFace, ver: Version, s: Seq<u8>, pos: int) {
        let b0 = <UvVertex as Record>::bytes(m.a, ver);
        let b1 = <UvVertex as Record>::bytes(m.b, ver);
        let b2 = <UvVertex as Record>::bytes(m.c, ver);
        lemma_stands_split(s, pos, b0 + b1, b2);
        lemma_stands_split(s, pos, b0, b1);
        let p0 = pos;
        let p1 = p0 + b0.len();
        let p2 = p1 + b1.len();
        <UvVertex as Record>::lemma_roundtrip(m.a, ver, s, p0);
        <UvVertex as Record>::lemma_roundtrip(m.b, ver, s, p1);
        <UvVertex as Record>::lemma_roundtrip(m.c, ver, s, p2);
    }

    fn read(buf: &[u8], pos: usize, ver: Version) -> (r: Result<(InsigniaFace, usize), DecodeError>) {
        let p = pos;
        let (a, p) = <UvVertex as Record>::read(buf, p, ver)?;
        let (b, p) = <UvVertex as Record>::read(buf, p, ver)?;
        let (c, p) = <UvVertex as Record>::read(buf, p, ver)?;
        Ok((InsigniaFace { a, b, c }, p))
    }

    fn write_to(&self, w: &mut Vec<u8>, ver: Version) -> (r: Result<(), EncodeError>) {
        match self.a.write_to(w, ver) {
            Err(e) => {
                return Err(e);
            },
            Ok(()) => {},
        }
        match self.b.write_to(w, ver) {
            Err(e) => {
                return Err(e);
            },
            Ok(()) => {},
        }
        match self.c.write_to(w, ver) {
            Err(e) => {
                return Err(e);
            },
            Ok(()) => {},
        }
        assert(w@ =~= old(w)@ + Self::bytes(self.deep_view(), ver));
        Ok(())
    }
}

/// A named point with properties.
#[derive(Clone, PartialEq, Eq, Debug)]
pub struct SpecialPoint {
    pub name: Text,
    pub properties: Text,
    pub position: Vec3d,
    pub radius: u32,
}

/// What a [`SpecialPoint`] holds.
pub struct SpecSpecialPoint {
    pub name: Seq<u8>,
    pub properties: Seq<u8>,
    pub position: Vec3d,
    pub radius: u32,
}

impl DeepView for SpecialPoint {
    type V = SpecSpecialPoint;

    open spec fn deep_view(&self) -> SpecSpecialPoint {
        SpecSpecialPoint {
            name: self.name.deep_view(),
            properties: self.properties.deep_view(),
            position: self.position.deep_view(),
            radius: self.radius.deep_view(),
        }
    }
}

impl Record for SpecialPoint {
    open spec fn parse(s: Seq<u8>, pos: int, ver: Version) -> Parsed<SpecSpecialPoint> {
        match <Text as Record>::parse(s, pos, ver) {
            Err(e) => Err(e),
            Ok((name, p1)) => match <Text as Record>::parse(s, p1, ver) {
                Err(e) => Err(e),
                Ok((properties, p2)) => match <Vec3d as Record>::parse(s, p2, ver) {
                    Err(e) => Err(e),
                    Ok((position, p3)) => match <u32 as Record>::parse(s, p3, ver) {
                        Err(e) => Err(e),
                        Ok((radius, p4)) => Ok((SpecSpecialPoint { name, properties, position, radius }, p4)),
                    },
                },
            },
        }
    }

    open spec fn bytes(m: SpecSpecialPoint, ver: Version) -> Seq<u8> {
        <Text as Record>::bytes(m.name, ver)
        + <Text as Record>::bytes(m.properties, ver)
        + <Vec3d as Record>::bytes(m.position, ver)
        + <u32 as Record>::bytes(m.radius, ver)
    }

    open spec fn encodable(m: SpecSpecialPoint, ver: Version) -> bool {
        &&& <Text as Record>::encodable(m.name, ver)
        &&& <Text as Record>::encodable(m.properties, ver)
        &&& <Vec3d as Record>::encodable(m.position, ver)
        &&& <u32 as Record>::encodable(m.radius, ver)
    }

    open spec fn faithful(m: SpecSpecialPoint, ver: Version) -> bool {
        &&& <Text as Record>::faithful(m.name, ver)
        &&& <Text as Record>::faithful(m.properties, ver)
        &&& <Vec3d as Record>::faithful(m.position, ver)
        &&& <u32 as Record>::faithful(m.radius, ver)
    }

    proof fn lemma_roundtrip(m: SpecSpecialPoint, ver: Version, s: Seq<u8>, pos: int) {
        let b0 = <Text as Record>::bytes(m.name, ver);
        let b1 = <Text as Record>::bytes(m.properties, ver);
        let b2 = <Vec3d as Record>::bytes(m.position, ver);
        let b3 = <u32 as Record>::bytes(m.radius, ver);
        lemma_stands_split(s, pos, b0 + b1 + b2, b3);
        lemma_stands_split(s, pos, b0 + b1, b2);
        lemma_stands_split(s, pos, b0, b1);
        let p0 = pos;
        let p1 = p0 + b0.len();
        let p2 = p1 + b1.len();
        let p3 = p2 + b2.len();
        <Text as Record>::lemma_roundtrip(m.name, ver, s, p0);
        <Text as Record>::lemma_roundtrip(m.properties, ver, s, p1);
        <Vec3d as Record>::lemma_roundtrip(m.position, ver, s, p2);
        <u32 as Record>::lemma_roundtrip(m.radius, ver, s, p3);
    }

    fn read(buf: &[u8], pos: usize, ver: Version) -> (r: Result<(SpecialPoint, usize), DecodeError>) {
        let p = pos;
        let (name, p) = <Text as Record>::read(buf, p, ver)?;
        let (properties, p) = <Text as Record>::read(buf, p, ver)?;
        let (position, p) = <Vec3d as Record>::read(buf, p, ver)?;
        let (radius, p) = <u32 as Record>::read(buf, p, ver)?;
        Ok((SpecialPoint { name, properties, position, radius }, p))
    }

    fn write_to(&self, w: &mut Vec<u8>, ver: Version) -> (r: Result<(), EncodeError>) {
        match self.name.write_to(w, ver) {
            Err(e) => {
                return Err(e);
            },
            Ok(()) => {},
        }
        match self.properties.write_to(w, ver) {
            Err(e) => {
                return Err(e);
            },
            Ok(()) => {},
        }
        match self.position.write_to(w, ver) {
            Err(e) => {
                return Err(e);
            },
            Ok(()) => {},
        }
        match self.radius.write_to(w, ver) {
            Err(e) => {
                return Err(e);
            },
            Ok(()) => {},
        }
        assert(w@ =~= old(w)@ + Self::bytes(self.deep_view(), ver));
        Ok(())
    }
}

/// A point of a path, with the turrets that cover it.
#[derive(Clone, PartialEq, Eq, Debug)]
pub struct PathPoint {
    pub position: Vec3d,
    pub radius: u32,
    pub turrets: Vec<ObjectId>,
}

/// What a [`PathPoint`] holds.
pub struct SpecPathPoint {
    pub position: Vec3d,
    pub radius: u32,
    pub turrets: Seq<ObjectId>,
}

impl DeepView for PathPoint {
    type V = SpecPathPoint;

    open spec fn deep_view(&self) -> SpecPathPoint {
        SpecPathPoint {
            position: self.position.deep_view(),
            radius: self.radius.deep_view(),
            turrets: self.turrets.deep_view(),
        }
    }
}

impl Record for PathPoint {
    open spec fn parse(s: Seq<u8>, pos: int, ver: Version) -> Parsed<SpecPathPoint> {
        match <Vec3d as Record>::parse(s, pos, ver) {
            Err(e) => Err(e),
            Ok((position, p1)) => match <u32 as Record>::parse(s, p1, ver) {
                Err(e) => Err(e),
                Ok((radius, p2)) => match <Vec<ObjectId> as Record>::parse(s, p2, ver) {
                    Err(e) => Err(e),
                    Ok((turrets, p3)) => Ok((SpecPathPoint { position, radius, turrets }, p3)),
                },
            },
        }
    }

    open spec fn bytes(m: SpecPathPoint, ver: Version) -> Seq<u8> {
        <Vec3d as Record>::bytes(m.position, ver)
        + <u32 as Record>::bytes(m.radius, ver)
        + <Vec<ObjectId> as Record>::bytes(m.turrets, ver)
    }

    open spec fn encodable(m: SpecPathPoint, ver: Version) -> bool {
        &&& <Vec3d as Record>::encodable(m.position, ver)
        &&& <u32 as Record>::encodable(m.radius, ver)
        &&& <Vec<ObjectId> as Record>::encodable(m.turrets, ver)
    }

    open spec fn faithful(m: SpecPathPoint, ver: Version) -> bool {
        &&& <Vec3d as Record>::faithful(m.position, ver)
        &&& <u32 as Record>::faithful(m.radius, ver)
        &&& <Vec<ObjectId> as Record>::faithful(m.turrets, ver)
    }

    proof fn lemma_roundtrip(m: SpecPathPoint, ver: Version, s: Seq<u8>, pos: int) {
        let b0 = <Vec3d as Record>::bytes(m.position, ver);
        let b1 = <u32 as Record>::bytes(m.radius, ver);
        let b2 = <Vec<ObjectId> as Record>::bytes(m.turrets, ver);
        lemma_stands_split(s, pos, b0 + b1, b2);
        lemma_stands_split(s, pos, b0, b1);
        let p0 = pos;
        let p1 = p0 + b0.len();
        let p2 = p1 + b1.len();
        <Vec3d as Record>::lemma_roundtrip(m.position, ver, s, p0);
        <u32 as Record>::lemma_roundtrip(m.radius, ver, s, p1);
        <Vec<ObjectId> as Record>::lemma_roundtrip(m.turrets, ver, s, p2);
    }

    fn read(buf: &[u8], pos: usize, ver: Version) -> (r: Result<(PathPoint, usize), DecodeError>) {
        let p = pos;
        let (position, p) = <Vec3d as Record>::read(buf, p, ver)?;
        let (radius, p) = <u32 as Record>::read(buf, p, ver)?;
        let (turrets, p) = <Vec<ObjectId> as Record>::read(buf, p, ver)?;
        Ok((PathPoint { position, radius, turrets }, p))
    }

    fn write_to(&self, w: &mut Vec<u8>, ver: Version) -> (r: Result<(), EncodeError>) {
        match self.position.write_to(w, ver) {
            Err(e) => {
                return Err(e);
            },
            Ok(()) => {},
        }
        match self.radius.write_to(w, ver) {
            Err(e) => {
                return Err(e);
            },
            Ok(()) => {},
        }
        match self.turrets.write_to(w, ver) {
            Err(e) => {
                return Err(e);
            },
            Ok(()) => {},
        }
        assert(w@ =~= old(w)@ + Self::bytes(self.deep_view(), ver));
        Ok(())
    }
}

/// A path. Its parent is named from `V20_02` on; before, the name is empty.
#[derive(Clone, PartialEq, Eq, Debug)]
pub struct Path {
    pub name: Text,
    pub parent: Text,
    pub points: Vec<PathPoint>,
}

/// What a [`Path`] holds.
pub struct SpecPath {
    pub name: Seq<u8>,
    pub parent: Seq<u8>,
    pub points: Seq<SpecPathPoint>,
}

impl DeepView for Path {
    type V = SpecPath;

    open spec fn deep_view(&self) -> SpecPath {
        SpecPath {
            name: self.name.deep_view(),
            parent: self.parent.deep_view(),
            points: self.points.deep_view(),
        }
    }
}

impl Record for Path {
    open spec fn parse(s: Seq<u8>, pos: int, ver: Version) -> Parsed<SpecPath> {
        match <Text as Record>::parse(s, pos, ver) {
            Err(e) => Err(e),
            Ok((name, p1)) => match (if ver.names_path_parents() {
                <Text as Record>::parse(s, p1, ver)
            } else {
                Ok::<(Seq<u8>, int), DecodeError>((Seq::<u8>::empty(), p1))
            }) {
                Err(e) => Err(e),
                Ok((parent, p2)) => match <Vec<PathPoint> as Record>::parse(s, p2, ver) {
                    Err(e) => Err(e),
                    Ok((points, p3)) => Ok((SpecPath { name, parent, points }, p3)),
                },
            },
        }
    }

    open spec fn bytes(m: SpecPath, ver: Version) -> Seq<u8> {
        <Text as Record>::bytes(m.name, ver)
        + (if ver.names_path_parents() {
            <Text as Record>::bytes(m.parent, ver)
        } else {
            Seq::<u8>::empty()
        })
        + <Vec<PathPoint> as Record>::bytes(m.points, ver)
    }

    open spec fn encodable(m: SpecPath, ver: Version) -> bool {
        &&& <Text as Record>::encodable(m.name, ver)
        &&& (ver.names_path_parents()) ==> <Text as Record>::encodable(m.parent, ver)
        &&& <Vec<PathPoint> as Record>::encodable(m.points, ver)
    }

    open spec fn faithful(m: SpecPath, ver: Version) -> bool {
        &&& <Text as Record>::faithful(m.name, ver)
        &&& (ver.names_path_parents()) ==> <Text as Record>::faithful(m.parent, ver)
        &&& !(ver.names_path_parents()) ==> m.parent == Seq::<u8>::empty()
        &&& <Vec<PathPoint> as Record>::faithful(m.points, ver)
    }

    proof fn lemma_roundtrip(m: SpecPath, ver: Version, s: Seq<u8>, pos: int) {
        let b0 = <Text as Record>::bytes(m.name, ver);
        let b1 = (if ver.names_path_parents() {
            <Text as Record>::bytes(m.parent, ver)
        } else {
            Seq::<u8>::empty()
        });
        let b2 = <Vec<PathPoint> as Record>::bytes(m.points, ver);
        lemma_stands_split(s, pos, b0 + b1, b2);
        lemma_stands_split(s, pos, b0, b1);
        let p0 = pos;
        let p1 = p0 + b0.len();
        let p2 = p1 + b1.len();
        <Text as Record>::lemma_roundtrip(m.name, ver, s, p0);
        if ver.names_path_parents() {
            <Text as Record>::lemma_roundtrip(m.parent, ver, s, p1);
        }
        <Vec<PathPoint> as Record>::lemma_roundtrip(m.points, ver, s, p2);
    }

    fn read(buf: &[u8], pos: usize, ver: Version) -> (r: Result<(Path, usize), DecodeError>) {
        let p = pos;
        let (name, p) = <Text as Record>::read(buf, p, ver)?;
        let (parent, p) = if ver.names_path_parents() {
            <Text as Record>::read(buf, p, ver)?
        } else {
            (Text::empty(), p)
        };
        let (points, p) = <Vec<PathPoint> as Record>::read(buf, p, ver)?;
        Ok((Path { name, parent, points }, p))
    }

    fn write_to(&self, w: &mut Vec<u8>, ver: Version) -> (r: Result<(), EncodeError>) {
        match self.name.write_to(w, ver) {
            Err(e) => {
                return Err(e);
            },
            Ok(()) => {},
        }
        if ver.names_path_parents() {
            match self.parent.write_to(w, ver) {
                Err(e) => {
                    return Err(e);
                },
                Ok(()) => {},
            }
        }
        match self.points.write_to(w, ver) {
            Err(e) => {
                return Err(e);
            },
            Ok(()) => {},
        }
        assert(w@ =~= old(w)@ + Self::bytes(self.deep_view(), ver));
        Ok(())
    }
}

/// A turret: the subobject it stands on, the subobject that is its gun, its
/// normal and its fire points.
#[derive(Clone, PartialEq, Eq, Debug)]
pub struct Turret {
    pub base_obj: ObjectId,
    pub gun_obj: ObjectId,
    pub normal: Vec3d,
    pub fire_points: Vec<Vec3d>,
}

/// What a [`Turret`] holds.
pub struct SpecTurret {
    pub base_obj: ObjectId,
    pub gun_obj: ObjectId,
    pub normal: Vec3d,
    pub fire_points: Seq<Vec3d>,
}

impl DeepView for Turret {
    type V = SpecTurret;

    open spec fn deep_view(&self) -> SpecTurret {
        SpecTurret {
            base_obj: self.base_obj.deep_view(),
            gun_obj: self.gun_obj.deep_view(),
            normal: self.normal.deep_view(),
            fire_points: self.fire_points.deep_view(),
        }
    }
}

impl Record for Turret {
    open spec fn parse(s: Seq<u8>, pos: int, ver: Version) -> Parsed<SpecTurret> {
        match <ObjectId as Record>::parse(s, pos, ver) {
            Err(e) => Err(e),
            Ok((base_obj, p1)) => match <ObjectId as Record>::parse(s, p1, ver) {
                Err(e) => Err(e),
                Ok((gun_obj, p2)) => match <Vec3d as Record>::parse(s, p2, ver) {
                    Err(e) => Err(e),
                    Ok((normal, p3)) => match <Vec<Vec3d> as Record>::parse(s, p3, ver) {
                        Err(e) => Err(e),
                        Ok((fire_points, p4)) => Ok((SpecTurret { base_obj, gun_obj, normal, fire_points }, p4)),
                    },
                },
            },
        }
    }

    open spec fn bytes(m: SpecTurret, ver: Version) -> Seq<u8> {
        <ObjectId as Record>::bytes(m.base_obj, ver)
        + <ObjectId as Record>::bytes(m.gun_obj, ver)
        + <Vec3d as Record>::bytes(m.normal, ver)
        + <Vec<Vec3d> as Record>::bytes(m.fire_points, ver)
    }

    open spec fn encodable(m: SpecTurret, ver: Version) -> bool {
        &&& <ObjectId as Record>::encodable(m.base_obj, ver)
        &&& <ObjectId as Record>::encodable(m.gun_obj, ver)
        &&& <Vec3d as Record>::encodable(m.normal, ver)
        &&& <Vec<Vec3d> as Record>::encodable(m.fire_points, ver)
    }

    open spec fn faithful(m: SpecTurret, ver: Version) -> bool {
        &&& <ObjectId as Record>::faithful(m.base_obj, ver)
        &&& <ObjectId as Record>::faithful(m.gun_obj, ver)
        &&& <Vec3d as Record>::faithful(m.normal, ver)
        &&& <Vec<Vec3d> as Record>::faithful(m.fire_points, ver)
    }

    proof fn lemma_roundtrip(m: SpecTurret, ver: Version, s: Seq<u8>, pos: int) {
        let b0 = <ObjectId as Record>::bytes(m.base_obj, ver);
        let b1 = <ObjectId as Record>::bytes(m.gun_obj, ver);
        let b2 = <Vec3d as Record>::bytes(m.normal, ver);
        let b3 = <Vec<Vec3d> as Record>::bytes(m.fire_points, ver);
        lemma_stands_split(s, pos, b0 + b1 + b2, b3);
        lemma_stands_split(s, pos, b0 + b1, b2);
        lemma_stands_split(s, pos, b0, b1);
        let p0 = pos;
        let p1 = p0 + b0.len();
        let p2 = p1 + b1.len();
        let p3 = p2 + b2.len();
        <ObjectId as Record>::lemma_roundtrip(m.base_obj, ver, s, p0);
        <ObjectId as Record>::lemma_roundtrip(m.gun_obj, ver, s, p1);
        <Vec3d as Record>::lemma_roundtrip(m.normal, ver, s, p2);
        <Vec<Vec3d> as Record>::lemma_roundtrip(m.fire_points, ver, s, p3);
    }

    fn read(buf: &[u8], pos: usize, ver: Version) -> (r: Result<(Turret, usize), DecodeError>) {
        let p = pos;
        let (base_obj, p) = <ObjectId as Record>::read(buf, p, ver)?;
        let (gun_obj, p) = <ObjectId as Record>::read(buf, p, ver)?;
        let (normal, p) = <Vec3d as Record>::read(buf, p, ver)?;
        let (fire_points, p) = <Vec<Vec3d> as Record>::read(buf, p, ver)?;
        Ok((Turret { base_obj, gun_obj, normal, fire_points }, p))
    }

    fn write_to(&self, w: &mut Vec<u8>, ver: Version) -> (r: Result<(), EncodeError>) {
        match self.base_obj.write_to(w, ver) {
            Err(e) => {
                return Err(e);
            },
            Ok(()) => {},
        }
        match self.gun_obj.write_to(w, ver) {
            Err(e) => {
                return Err(e);
            },
            Ok(()) => {},
        }
        match self.normal.write_to(w, ver) {
            Err(e) => {
                return Err(e);
            },
            Ok(()) => {},
        }
        match self.fire_points.write_to(w, ver) {
            Err(e) => {
                return Err(e);
            },
            Ok(()) => {},
        }
        assert(w@ =~= old(w)@ + Self::bytes(self.deep_view(), ver));
        Ok(())
    }
}

/// A docking bay as the format stores it: properties, the paths that lead
/// to it, and its points.
#[derive(Clone, PartialEq, Eq, Debug)]
pub struct Dock {
    pub properties: Text,
    pub paths: Vec<PathId>,
    pub points: Vec<DockingPoint>,
}

/// What a [`Dock`] holds.
pub struct SpecDock {
    pub properties: Seq<u8>,
    pub paths: Seq<PathId>,
    pub points: Seq<DockingPoint>,
}

impl DeepView for Dock {
    type V = SpecDock;

    open spec fn deep_view(&self) -> SpecDock {
        SpecDock {
            properties: self.properties.deep_view(),
            paths: self.paths.deep_view(),
            points: self.points.deep_view(),
        }
    }
}

impl Record for Dock {
    open spec fn parse(s: Seq<u8>, pos: int, ver: Version) -> Parsed<SpecDock> {
        match <Text as Record>::parse(s, pos, ver) {
            Err(e) => Err(e),
            Ok((properties, p1)) => match <Vec<PathId> as Record>::parse(s, p1, ver) {
                Err(e) => Err(e),
                Ok((paths, p2)) => match <Vec<DockingPoint> as Record>::parse(s, p2, ver) {
                    Err(e) => Err(e),
                    Ok((points, p3)) => Ok((SpecDock { properties, paths, points }, p3)),
                },
            },
        }
    }

    open spec fn bytes(m: SpecDock, ver: Version) -> Seq<u8> {
        <Text as Record>::bytes(m.properties, ver)
        + <Vec<PathId> as Record>::bytes(m.paths, ver)
        + <Vec<DockingPoint> as Record>::bytes(m.points, ver)
    }

    open spec fn encodable(m: SpecDock, ver: Version) -> bool {
        &&& <Text as Record>::encodable(m.properties, ver)
        &&& <Vec<PathId> as Record>::encodable(m.paths, ver)
        &&& <Vec<DockingPoint> as Record>::encodable(m.points, ver)
    }

    open spec fn faithful(m: SpecDock, ver: Version) -> bool {
        &&& <Text as Record>::faithful(m.properties, ver)
        &&& <Vec<PathId> as Record>::faithful(m.paths, ver)
        &&& <Vec<DockingPoint> as Record>::faithful(m.points, ver)
    }

    proof fn lemma_roundtrip(m: SpecDock, ver: Version, s: Seq<u8>, pos: int) {
        let b0 = <Text as Record>::bytes(m.properties, ver);
        let b1 = <Vec<PathId> as Record>::bytes(m.paths, ver);
        let b2 = <Vec<DockingPoint> as Record>::bytes(m.points, ver);
        lemma_stands_split(s, pos, b0 + b1, b2);
        lemma_stands_split(s, pos, b0, b1);
        let p0 = pos;
        let p1 = p0 + b0.len();
        let p2 = p1 + b1.len();
        <Text as Record>::lemma_roundtrip(m.properties, ver, s, p0);
        <Vec<PathId> as Record>::lemma_roundtrip(m.paths, ver, s, p1);
        <Vec<DockingPoint> as Record>::lemma_roundtrip(m.points, ver, s, p2);
    }

    fn read(buf: &[u8], pos: usize, ver: Version) -> (r: Result<(Dock, usize), DecodeError>) {
        let p = pos;
        let (properties, p) = <Text as Record>::read(buf, p, ver)?;
        let (paths, p) = <Vec<PathId> as Record>::read(buf, p, ver)?;
        let (points, p) = <Vec<DockingPoint> as Record>::read(buf, p, ver)?;
        Ok((Dock { properties, paths, points }, p))
    }

    fn write_to(&self, w: &mut Vec<u8>, ver: Version) -> (r: Result<(), EncodeError>) {
        match self.properties.write_to(w, ver) {
            Err(e) => {
                return Err(e);
            },
            Ok(()) => {},
        }
        match self.paths.write_to(w, ver) {
            Err(e) => {
                return Err(e);
            },
            Ok(()) => {},
        }
        match self.points.write_to(w, ver) {
            Err(e) => {
                return Err(e);
            },
            Ok(()) => {},
        }
        assert(w@ =~= old(w)@ + Self::bytes(self.deep_view(), ver));
        Ok(())
    }
}

/// A bank of thruster glows. The number of glows stands before the
/// properties, which are stored from `V21_17` on.
#[derive(Clone, PartialEq, Eq, Debug)]
pub struct ThrusterBank {
    pub properties: Text,
    pub glows: Vec<ThrusterGlow>,
}

/// What a [`ThrusterBank`] holds.
pub struct SpecThrusterBank {
    pub properties: Seq<u8>,
    pub glows: Seq<ThrusterGlow>,
}

impl DeepView for ThrusterBank {
    type V = SpecThrusterBank;

    open spec fn deep_view(&self) -> SpecThrusterBank {
        SpecThrusterBank {
            properties: self.properties.deep_view(),
            glows: self.glows.deep_view(),
        }
    }
}

impl Record for ThrusterBank {
    open spec fn parse(s: Seq<u8>, pos: int, ver: Version) -> Parsed<SpecThrusterBank> {
        match spec_u32(s, pos) {
            Err(e) => Err(e),
            Ok((n_glows, p1)) => match (if ver.stores_thruster_properties() {
                <Text as Record>::parse(s, p1, ver)
            } else {
                Ok::<(Seq<u8>, int), DecodeError>((Seq::<u8>::empty(), p1))
            }) {
                Err(e) => Err(e),
                Ok((properties, p2)) => match spec_list_n::<ThrusterGlow>(s, p2, n_glows as nat, ver) {
                    Err(e) => Err(e),
                    Ok((glows, p3)) => Ok((SpecThrusterBank { properties, glows }, p3)),
                },
            },
        }
    }

    open spec fn bytes(m: SpecThrusterBank, ver: Version) -> Seq<u8> {
        u32_bytes(m.glows.len() as u32)
        + (if ver.stores_thruster_properties() {
            <Text as Record>::bytes(m.properties, ver)
        } else {
            Seq::<u8>::empty()
        })
        + items_bytes::<ThrusterGlow>(m.glows, ver)
    }

    open spec fn encodable(m: SpecThrusterBank, ver: Version) -> bool {
        &&& m.glows.len() <= u32::MAX
        &&& (ver.stores_thruster_properties()) ==> <Text as Record>::encodable(m.properties, ver)
        &&& items_encodable::<ThrusterGlow>(m.glows, ver)
    }

    open spec fn faithful(m: SpecThrusterBank, ver: Version) -> bool {
        &&& (ver.stores_thruster_properties()) ==> <Text as Record>::faithful(m.properties, ver)
        &&& !(ver.stores_thruster_properties()) ==> m.properties == Seq::<u8>::empty()
        &&& items_faithful::<ThrusterGlow>(m.glows, ver)
    }

    proof fn lemma_roundtrip(m: SpecThrusterBank, ver: Version, s: Seq<u8>, pos: int) {
        let b0 = u32_bytes(m.glows.len() as u32);
        let b1 = (if ver.stores_thruster_properties() {
            <Text as Record>::bytes(m.properties, ver)
        } else {
            Seq::<u8>::empty()
        });
        let b2 = items_bytes::<ThrusterGlow>(m.glows, ver);
        lemma_stands_split(s, pos, b0 + b1, b2);
        lemma_stands_split(s, pos, b0, b1);
        let p0 = pos;
        let p1 = p0 + b0.len();
        let p2 = p1 + b1.len();
        lemma_u32_stands(s, p0, m.glows.len() as u32);
        if ver.stores_thruster_properties() {
            <Text as Record>::lemma_roundtrip(m.properties, ver, s, p1);
        }
        lemma_items_roundtrip::<ThrusterGlow>(m.glows, ver, s, p2);
    }

    fn read(buf: &[u8], pos: usize, ver: Version) -> (r: Result<(ThrusterBank, usize), DecodeError>) {
        let p = pos;
        let (n_glows, p) = read_u32(buf, p)?;
        let (properties, p) = if ver.stores_thruster_properties() {
            <Text as Record>::read(buf, p, ver)?
        } else {
            (Text::empty(), p)
        };
        let (glows, p) = read_list_n::<ThrusterGlow>(buf, p, n_glows as usize, ver)?;
        Ok((ThrusterBank { properties, glows }, p))
    }

    fn write_to(&self, w: &mut Vec<u8>, ver: Version) -> (r: Result<(), EncodeError>) {
        if self.glows.len() > 0xffff_ffff {
            return Err(EncodeError::Unrepresentable);
        }
        write_u32(w, self.glows.len() as u32);
        if ver.stores_thruster_properties() {
            match self.properties.write_to(w, ver) {
                Err(e) => {
                    return Err(e);
                },
                Ok(()) => {},
            }
        }
        match write_items::<ThrusterGlow>(w, &self.glows, ver) {
            Err(e) => {
                return Err(e);
            },
            Ok(()) => {},
        }
        assert(w@ =~= old(w)@ + Self::bytes(self.deep_view(), ver));
        Ok(())
    }
}

/// A bank of glow points. The number of points stands before the
/// properties.
#[derive(Clone, PartialEq, Eq, Debug)]
pub struct GlowPointBank {
    pub disp_time: i32,
    pub on_time: u32,
    pub off_time: u32,
    pub obj_parent: ObjectId,
    pub lod: u32,
    pub glow_type: u32,
    pub properties: Text,
    pub glow_points: Vec<GlowPoint>,
}

/// What a [`GlowPointBank`] holds.
pub struct SpecGlowPointBank {
    pub disp_time: i32,
    pub on_time: u32,
    pub off_time: u32,
    pub obj_parent: ObjectId,
    pub lod: u32,
    pub glow_type: u32,
    pub properties: Seq<u8>,
    pub glow_points: Seq<GlowPoint>,
}

impl DeepView for GlowPointBank {
    type V = SpecGlowPointBank;

    open spec fn deep_view(&self) -> SpecGlowPointBank {
        SpecGlowPointBank {
            disp_time: self.disp_time.deep_view(),
            on_time: self.on_time.deep_view(),
            off_time: self.off_time.deep_view(),
            obj_parent: self.obj_parent.deep_view(),
            lod: self.lod.deep_view(),
            glow_type: self.glow_type.deep_view(),
            properties: self.properties.deep_view(),
            glow_points: self.glow_points.deep_view(),
        }
    }
}

impl Record for GlowPointBank {
    open spec fn parse(s: Seq<u8>, pos: int, ver: Version) -> Parsed<SpecGlowPointBank> {
        match <i32 as Record>::parse(s, pos, ver) {
            Err(e) => Err(e),
            Ok((disp_time, p1)) => match <u32 as Record>::parse(s, p1, ver) {
                Err(e) => Err(e),
                Ok((on_time, p2)) => match <u32 as Record>::parse(s, p2, ver) {
                    Err(e) => Err(e),
                    Ok((off_time, p3)) => match <ObjectId as Record>::parse(s, p3, ver) {
                        Err(e) => Err(e),
                        Ok((obj_parent, p4)) => match <u32 as Record>::parse(s, p4, ver) {
                            Err(e) => Err(e),
                            Ok((lod, p5)) => match <u32 as Record>::parse(s, p5, ver) {
                                Err(e) => Err(e),
                                Ok((glow_type, p6)) => match spec_u32(s, p6) {
                                    Err(e) => Err(e),
                                    Ok((n_glow_points, p7)) => match <Text as Record>::parse(s, p7, ver) {
                                        Err(e) => Err(e),
                                        Ok((properties, p8)) => match spec_list_n::<GlowPoint>(s, p8, n_glow_points as nat, ver) {
                                            Err(e) => Err(e),
                                            Ok((glow_points, p9)) => Ok((SpecGlowPointBank { disp_time, on_time, off_time, obj_parent, lod, glow_type, properties, glow_points }, p9)),
                                        },
                                    },
                                },
                            },
                        },
                    },
                },
            },
        }
    }

    open spec fn bytes(m: SpecGlowPointBank, ver: Version) -> Seq<u8> {
        <i32 as Record>::bytes(m.disp_time, ver)
        + <u32 as Record>::bytes(m.on_time, ver)
        + <u32 as Record>::bytes(m.off_time, ver)
        + <ObjectId as Record>::bytes(m.obj_parent, ver)
        + <u32 as Record>::bytes(m.lod, ver)
        + <u32 as Record>::bytes(m.glow_type, ver)
        + u32_bytes(m.glow_points.len() as u32)
        + <Text as Record>::bytes(m.properties, ver)
        + items_bytes::<GlowPoint>(m.glow_points, ver)
    }

    open spec fn encodable(m: SpecGlowPointBank, ver: Version) -> bool {
        &&& <i32 as Record>::encodable(m.disp_time, ver)
        &&& <u32 as Record>::encodable(m.on_time, ver)
        &&& <u32 as Record>::encodable(m.off_time, ver)
        &&& <ObjectId as Record>::encodable(m.obj_parent, ver)
        &&& <u32 as Record>::encodable(m.lod, ver)
        &&& <u32 as Record>::encodable(m.glow_type, ver)
        &&& m.glow_points.len() <= u32::MAX
        &&& <Text as Record>::encodable(m.properties, ver)
        &&& items_encodable::<GlowPoint>(m.glow_points, ver)
    }

    open spec fn faithful(m: SpecGlowPointBank, ver: Version) -> bool {
        &&& <i32 as Record>::faithful(m.disp_time, ver)
        &&& <u32 as Record>::faithful(m.on_time, ver)
        &&& <u32 as Record>::faithful(m.off_time, ver)
        &&& <ObjectId as Record>::faithful(m.obj_parent, ver)
        &&& <u32 as Record>::faithful(m.lod, ver)
        &&& <u32 as Record>::faithful(m.glow_type, ver)
        &&& <Text as Record>::faithful(m.properties, ver)
        &&& items_faithful::<GlowPoint>(m.glow_points, ver)
    }

    proof fn lemma_roundtrip(m: SpecGlowPointBank, ver: Version, s: Seq<u8>, pos: int) {
        let b0 = <i32 as Record>::bytes(m.disp_time, ver);
        let b1 = <u32 as Record>::bytes(m.on_time, ver);
        let b2 = <u32 as Record>::bytes(m.off_time, ver);
        let b3 = <ObjectId as Record>::bytes(m.obj_parent, ver);
        let b4 = <u32 as Record>::bytes(m.lod, ver);
        let b5 = <u32 as Record>::bytes(m.glow_type, ver);
        let b6 = u32_bytes(m.glow_points.len() as u32);
        let b7 = <Text as Record>::bytes(m.properties, ver);
        let b8 = items_bytes::<GlowPoint>(m.glow_points, ver);
        lemma_stands_split(s, pos, b0 + b1 + b2 + b3 + b4 + b5 + b6 + b7, b8);
        lemma_stands_split(s, pos, b0 + b1 + b2 + b3 + b4 + b5 + b6, b7);
        lemma_stands_split(s, pos, b0 + b1 + b2 + b3 + b4 + b5, b6);
        lemma_stands_split(s, pos, b0 + b1 + b2 + b3 + b4, b5);
        lemma_stands_split(s, pos, b0 + b1 + b2 + b3, b4);
        lemma_stands_split(s, pos, b0 + b1 + b2, b3);
        lemma_stands_split(s, pos, b0 + b1, b2);
        lemma_stands_split(s, pos, b0, b1);
        let p0 = pos;
        let p1 = p0 + b0.len();
        let p2 = p1 + b1.len();
        let p3 = p2 + b2.len();
        let p4 = p3 + b3.len();
        let p5 = p4 + b4.len();
        let p6 = p5 + b5.len();
        let p7 = p6 + b6.len();
        let p8 = p7 + b7.len();
        <i32 as Record>::lemma_roundtrip(m.disp_time, ver, s, p0);
        <u32 as Record>::lemma_roundtrip(m.on_time, ver, s, p1);
        <u32 as Record>::lemma_roundtrip(m.off_time, ver, s, p2);
        <ObjectId as Record>::lemma_roundtrip(m.obj_parent, ver, s, p3);
        <u32 as Record>::lemma_roundtrip(m.lod, ver, s, p4);
        <u32 as Record>::lemma_roundtrip(m.glow_type, ver, s, p5);
        lemma_u32_stands(s, p6, m.glow_points.len() as u32);
        <Text as Record>::lemma_roundtrip(m.properties, ver, s, p7);
        lemma_items_roundtrip::<GlowPoint>(m.glow_points, ver, s, p8);
    }

    fn read(buf: &[u8], pos: usize, ver: Version) -> (r: Result<(GlowPointBank, usize), DecodeError>) {
        let p = pos;
        let (disp_time, p) = <i32 as Record>::read(buf, p, ver)?;
        let (on_time, p) = <u32 as Record>::read(buf, p, ver)?;
        let (off_time, p) = <u32 as Record>::read(buf, p, ver)?;
        let (obj_parent, p) = <ObjectId as Record>::read(buf, p, ver)?;
        let (lod, p) = <u32 as Record>::read(buf, p, ver)?;
        let (glow_type, p) = <u32 as Record>::read(buf, p, ver)?;
        let (n_glow_points, p) = read_u32(buf, p)?;
        let (properties, p) = <Text as Record>::read(buf, p, ver)?;
        let (glow_points, p) = read_list_n::<GlowPoint>(buf, p, n_glow_points as usize, ver)?;
        Ok((GlowPointBank { disp_time, on_time, off_time, obj_parent, lod, glow_type, properties, glow_points }, p))
    }

    fn write_to(&self, w: &mut Vec<u8>, ver: Version) -> (r: Result<(), EncodeError>) {
        match self.disp_time.write_to(w, ver) {
            Err(e) => {
                return Err(e);
            },
            Ok(()) => {},
        }
        match self.on_time.write_to(w, ver) {
            Err(e) => {
                return Err(e);
            },
            Ok(()) => {},
        }
        match self.off_time.write_to(w, ver) {
            Err(e) => {
                return Err(e);
            },
            Ok(()) => {},
        }
        match self.obj_parent.write_to(w, ver) {
            Err(e) => {
                return Err(e);
            },
            Ok(()) => {},
        }
        match self.lod.write_to(w, ver) {
            Err(e) => {
                return Err(e);
            },
            Ok(()) => {},
        }
        match self.glow_type.write_to(w, ver) {
            Err(e) => {
                return Err(e);
            },
            Ok(()) => {},
        }
        if self.glow_points.len() > 0xffff_ffff {
            return Err(EncodeError::Unrepresentable);
        }
        write_u32(w, self.glow_points.len() as u32);
        match self.properties.write_to(w, ver) {
            Err(e) => {
                return Err(e);
            },
            Ok(()) => {},
        }
        match write_items::<GlowPoint>(w, &self.glow_points, ver) {
            Err(e) => {
                return Err(e);
            },
            Ok(()) => {},
        }
        assert(w@ =~= old(w)@ + Self::bytes(self.deep_view(), ver));
        Ok(())
    }
}

/// An insignia: a small mesh on a detail level. The number of faces stands
/// before the vertices.
#[derive(Clone, PartialEq, Eq, Debug)]
pub struct Insignia {
    pub detail_level: u32,
    pub vertices: Vec<Vec3d>,
    pub offset: Vec3d,
    pub faces: Vec<InsigniaFace>,
}

/// What a [`Insignia`] holds.
pub struct SpecInsignia {
    pub detail_level: u32,
    pub vertices: Seq<Vec3d>,
    pub offset: Vec3d,
    pub faces: Seq<InsigniaFace>,
}

impl DeepView for Insignia {
    type V = SpecInsignia;

    open spec fn deep_view(&self) -> SpecInsignia {
        SpecInsignia {
            detail_level: self.detail_level.deep_view(),
            vertices: self.vertices.deep_view(),
            offset: self.offset.deep_view(),
            faces: self.faces.deep_view(),
        }
    }
}

impl Record for Insignia {
    open spec fn parse(s: Seq<u8>, pos: int, ver: Version) -> Parsed<SpecInsignia> {
        match <u32 as Record>::parse(s, pos, ver) {
            Err(e) => Err(e),
            Ok((detail_level, p1)) => match spec_u32(s, p1) {
                Err(e) => Err(e),
                Ok((n_faces, p2)) => match <Vec<Vec3d> as Record>::parse(s, p2, ver) {
                    Err(e) => Err(e),
                    Ok((vertices, p3)) => match <Vec3d as Record>::parse(s, p3, ver) {
                        Err(e) => Err(e),
                        Ok((offset, p4)) => match spec_list_n::<InsigniaFace>(s, p4, n_faces as nat, ver) {
                            Err(e) => Err(e),
                            Ok((faces, p5)) => Ok((SpecInsignia { detail_level, vertices, offset, faces }, p5)),
                        },
                    },
                },
            },
        }
    }

    open spec fn bytes(m: SpecInsignia, ver: Version) -> Seq<u8> {
        <u32 as Record>::bytes(m.detail_level, ver)
        + u32_bytes(m.faces.len() as u32)
        + <Vec<Vec3d> as Record>::bytes(m.vertices, ver)
        + <Vec3d as Record>::bytes(m.offset, ver)
        + items_bytes::<InsigniaFace>(m.faces, ver)
    }

    open spec fn encodable(m: SpecInsignia, ver: Version) -> bool {
        &&& <u32 as Record>::encodable(m.detail_level, ver)
        &&& m.faces.len() <= u32::MAX
        &&& <Vec<Vec3d> as Record>::encodable(m.vertices, ver)
        &&& <Vec3d as Record>::encodable(m.offset, ver)
        &&& items_encodable::<InsigniaFace>(m.faces, ver)
    }

    open spec fn faithful(m: SpecInsignia, ver: Version) -> bool {
        &&& <u32 as Record>::faithful(m.detail_level, ver)
        &&& <Vec<Vec3d> as Record>::faithful(m.vertices, ver)
        &&& <Vec3d as Record>::faithful(m.offset, ver)
        &&& items_faithful::<InsigniaFace>(m.faces, ver)
    }

    proof fn lemma_roundtrip(m: SpecInsignia, ver: Version, s: Seq<u8>, pos: int) {
        let b0 = <u32 as Record>::bytes(m.detail_level, ver);
        let b1 = u32_bytes(m.faces.len() as u32);
        let b2 = <Vec<Vec3d> as Record>::bytes(m.vertices, ver);
        let b3 = <Vec3d as Record>::bytes(m.offset, ver);
        let b4 = items_bytes::<InsigniaFace>(m.faces, ver);
        lemma_stands_split(s, pos, b0 + b1 + b2 + b3, b4);
        lemma_stands_split(s, pos, b0 + b1 + b2, b3);
        lemma_stands_split(s, pos, b0 + b1, b2);
        lemma_stands_split(s, pos, b0, b1);
        let p0 = pos;
        let p1 = p0 + b0.len();
        let p2 = p1 + b1.len();
        let p3 = p2 + b2.len();
        let p4 = p3 + b3.len();
        <u32 as Record>::lemma_roundtrip(m.detail_level, ver, s, p0);
        lemma_u32_stands(s, p1, m.faces.len() as u32);
        <Vec<Vec3d> as Record>::lemma_roundtrip(m.vertices, ver, s, p2);
        <Vec3d as Record>::lemma_roundtrip(m.offset, ver, s, p3);
        lemma_items_roundtrip::<InsigniaFace>(m.faces, ver, s, p4);
    }

    fn read(buf: &[u8], pos: usize, ver: Version) -> (r: Result<(Insignia, usize), DecodeError>) {
        let p = pos;
        let (detail_level, p) = <u32 as Record>::read(buf, p, ver)?;
        let (n_faces, p) = read_u32(buf, p)?;
        let (vertices, p) = <Vec<Vec3d> as Record>::read(buf, p, ver)?;
        let (offset, p) = <Vec3d as Record>::read(buf, p, ver)?;
        let (faces, p) = read_list_n::<InsigniaFace>(buf, p, n_faces as usize, ver)?;
        Ok((Insignia { detail_level, vertices, offset, faces }, p))
    }

    fn write_to(&self, w: &mut Vec<u8>, ver: Version) -> (r: Result<(), EncodeError>) {
        match self.detail_level.write_to(w, ver) {
            Err(e) => {
                return Err(e);
            },
            Ok(()) => {},
        }
        if self.faces.len() > 0xffff_ffff {
            return Err(EncodeError::Unrepresentable);
        }
        write_u32(w, self.faces.len() as u32);
        match self.vertices.write_to(w, ver) {
            Err(e) => {
                return Err(e);
            },
            Ok(()) => {},
        }
        match self.offset.write_to(w, ver) {
            Err(e) => {
                return Err(e);
            },
            Ok(()) => {},
        }
        match write_items::<InsigniaFace>(w, &self.faces, ver) {
            Err(e) => {
                return Err(e);
            },
            Ok(()) => {},
        }
        assert(w@ =~= old(w)@ + Self::bytes(self.deep_view(), ver));
        Ok(())
    }
}

} // verus!
