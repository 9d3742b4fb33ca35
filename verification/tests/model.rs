use pof::bsp::{BspData, BspNode, PolyVertex, Polygon};
use pof::bytes::Text;
use pof::error::{DecodeError, EncodeError, Violation};
use pof::geom::{BoundingBox, Vec3d};
use pof::header::{
    read_header_chunk, write_header_chunk, BspLight, BspLightKind, Mat3d, ObjHeader,
};
use pof::version::MassLayout;
use pof::ids::{NormalId, ObjectId, PathId, PolygonId, TextureId, VertexId};
use pof::model::{link_children, Model};
use pof::parse::{decode, Parser};
use pof::records::{
    CrossSection, Dock, DockingPoint, EyePoint, GlowPoint, GlowPointBank, Insignia,
    InsigniaFace, Path, PathPoint, SpecialPoint, ThrusterBank, ThrusterGlow, Turret, UvVertex,
    WeaponHardpoint,
};
use pof::shield::{ShieldData, ShieldNode, ShieldPolygon};
use pof::subobject::{
    parse_subsys_mov_axis, parse_subsys_mov_type, SubObject, SubsysMovementAxis,
    SubsysMovementType,
};
use pof::version::Version;
use pof::write::{encode, write_chunk, write_chunk_raw, write_chunk_vec, write_subobjects};

fn mv(x: f32, y: f32, z: f32) -> Vec3d {
    Vec3d { x: x.to_bits(), y: y.to_bits(), z: z.to_bits() }
}

fn mbox(lo: f32, hi: f32) -> BoundingBox {
    BoundingBox { min: mv(lo, lo, lo), max: mv(hi, hi, hi) }
}

fn text(s: &str) -> Text {
    Text::new(s.as_bytes().to_vec())
}

fn no_side(_: Vec3d, _: Vec3d, _: &Vec<Vec3d>) -> bool {
    panic!("the side test is not needed here")
}

fn w32(w: &mut Vec<u8>, n: u32) {
    w.extend_from_slice(&n.to_le_bytes());
}

fn r32(b: &[u8], at: usize) -> u32 {
    u32::from_le_bytes([b[at], b[at + 1], b[at + 2], b[at + 3]])
}

fn chunk(w: &mut Vec<u8>, tag: &[u8; 4], content: &[u8]) {
    w.extend_from_slice(tag);
    w32(w, content.len() as u32);
    w.extend_from_slice(content);
}

fn file_head(version: i32) -> Vec<u8> {
    let mut w = b"PSPO".to_vec();
    w.extend_from_slice(&version.to_le_bytes());
    w
}

fn a_tree(seed: u32) -> BspData {
    BspData {
        verts: vec![mv(0.0, 0.0, 0.0), mv(1.0, 0.0, seed as f32), mv(0.0, 1.0, 0.0)],
        norms: vec![mv(0.0, 0.0, 1.0), mv(0.0, 1.0, 0.0), mv(1.0, 0.0, 0.0)],
        collision_tree: BspNode::Leaf {
            bbox: BoundingBox { min: mv(0.0, 0.0, 0.0), max: mv(1.0, 1.0, seed as f32) },
            poly: Polygon {
                normal: mv(0.0, 0.0, 1.0),
                texture: TextureId(seed),
                verts: (0..3)
                    .map(|i| PolyVertex {
                        vertex_id: VertexId(i),
                        normal_id: NormalId(2 - i),
                        u: (i as f32 * 0.5).to_bits(),
                        v: 0.25f32.to_bits(),
                    })
                    .collect(),
            },
        },
    }
}

fn a_subobject(id: u32, parent: Option<u32>, children: &[u32], debris: bool) -> SubObject {
    SubObject {
        obj_id: ObjectId(id),
        radius: (id as f32 + 1.5).to_bits(),
        parent: parent.map(ObjectId),
        offset: mv(id as f32, 0.0, -1.0),
        geo_center: mv(0.5, id as f32, 0.0),
        bbox: mbox(-1.0, id as f32 + 1.0),
        name: text(&format!("part{}", id)),
        properties: text("$special=subsystem"),
        movement_type: SubsysMovementType::ROT,
        movement_axis: SubsysMovementAxis::ZAXIS,
        bsp_data: a_tree(id),
        children: children.iter().map(|&c| ObjectId(c)).collect(),
        is_debris_model: debris,
    }
}

fn a_header(num_subobjects: u32) -> ObjHeader {
    ObjHeader {
        max_radius: 12.5f32.to_bits(),
        obj_flags: 3,
        num_subobjects,
        bbox: mbox(-4.0, 4.0),
        detail_levels: vec![ObjectId(0), ObjectId(2)],
        mass: 1234.5f32.to_bits(),
        center_of_mass: mv(0.0, 0.25, -0.5),
        moment_of_inertia: Mat3d { rvec: mv(1.0, 0.0, 0.0), uvec: mv(0.0, 2.0, 0.0), fvec: mv(0.0, 0.0, 3.0) },
        cross_sections: vec![
            CrossSection { depth: 1.0f32.to_bits(), radius: 2.0f32.to_bits() },
            CrossSection { depth: 3.0f32.to_bits(), radius: 4.0f32.to_bits() },
        ],
        bsp_lights: vec![
            BspLight { location: mv(1.0, 1.0, 1.0), kind: BspLightKind::Muzzle },
            BspLight { location: mv(2.0, 2.0, 2.0), kind: BspLightKind::Thruster },
        ],
    }
}

fn a_shield(with_tree: bool) -> ShieldData {
    ShieldData {
        verts: vec![mv(0.0, 0.0, 0.0), mv(1.0, 0.0, 0.0), mv(0.0, 1.0, 0.0), mv(0.0, 0.0, 1.0)],
        polygons: vec![
            ShieldPolygon {
                normal: mv(0.0, 0.0, 1.0),
                verts: (VertexId(0), VertexId(1), VertexId(2)),
                neighbors: (PolygonId(1), PolygonId(1), PolygonId(1)),
            },
            ShieldPolygon {
                normal: mv(0.0, 1.0, 0.0),
                verts: (VertexId(0), VertexId(1), VertexId(3)),
                neighbors: (PolygonId(0), PolygonId(0), PolygonId(0)),
            },
        ],
        collision_tree: if with_tree {
            Some(ShieldNode::Split {
                bbox: mbox(0.0, 1.0),
                front: Box::new(ShieldNode::Leaf { bbox: mbox(0.0, 0.5), poly_list: vec![PolygonId(0)] }),
                back: Box::new(ShieldNode::Leaf { bbox: mbox(0.5, 1.0), poly_list: vec![PolygonId(1)] }),
            })
        } else {
            None
        },
    }
}

fn a_model(version: Version) -> Model {
    let hardpoint_offset = if version.ge(Version::V21_18) && version != Version::V22_00 { 0.5f32 } else { 0.0 };
    let glow_radius = if version.gt(Version::V20_04) { 2.5f32 } else { 1.0 };
    Model {
        version,
        header: a_header(3),
        sub_objects: vec![
            a_subobject(0, None, &[1, 2], false),
            a_subobject(1, Some(0), &[], true),
            a_subobject(2, Some(0), &[], false),
        ],
        textures: vec![text("hull"), text("glass"), text("")],
        paths: vec![Path {
            name: text("$path01"),
            parent: if version.ge(Version::V20_02) { text("part1") } else { Text::empty() },
            points: vec![
                PathPoint { position: mv(1.0, 2.0, 3.0), radius: 4.0f32.to_bits(), turrets: vec![ObjectId(1)] },
                PathPoint { position: mv(5.0, 6.0, 7.0), radius: 8.0f32.to_bits(), turrets: vec![] },
            ],
        }],
        special_points: vec![SpecialPoint {
            name: text("$sensors"),
            properties: text("$special=subsystem"),
            position: mv(0.0, 1.0, 0.0),
            radius: 1.0f32.to_bits(),
        }],
        eye_points: vec![EyePoint { attached_subobj: ObjectId(0), offset: mv(0.0, 1.0, 2.0), normal: mv(0.0, 0.0, 1.0) }],
        primary_weps: vec![
            vec![
                WeaponHardpoint { position: mv(1.0, 0.0, 0.0), normal: mv(0.0, 0.0, 1.0), offset: hardpoint_offset.to_bits() },
                WeaponHardpoint { position: mv(-1.0, 0.0, 0.0), normal: mv(0.0, 0.0, 1.0), offset: 0.0f32.to_bits() },
            ],
            vec![],
        ],
        secondary_weps: vec![vec![WeaponHardpoint {
            position: mv(0.0, -1.0, 0.0),
            normal: mv(0.0, 0.0, 1.0),
            offset: 0.0f32.to_bits(),
        }]],
        turrets: vec![Turret {
            base_obj: ObjectId(1),
            gun_obj: ObjectId(2),
            normal: mv(0.0, 1.0, 0.0),
            fire_points: vec![mv(0.0, 0.5, 0.0), mv(0.0, 0.5, 0.1)],
        }],
        thruster_banks: vec![ThrusterBank {
            properties: if version.ge(Version::V21_17) { text("$engine_subsystem=$engine") } else { Text::empty() },
            glows: vec![ThrusterGlow { position: mv(0.0, 0.0, -3.0), normal: mv(0.0, 0.0, -1.0), radius: glow_radius.to_bits() }],
        }],
        glow_banks: vec![GlowPointBank {
            disp_time: -5,
            on_time: 100,
            off_time: 200,
            obj_parent: ObjectId(0),
            lod: 0,
            glow_type: 1,
            properties: text("$glow_texture=+thrusterglow01"),
            glow_points: vec![
                GlowPoint { position: mv(1.0, 1.0, 1.0), normal: mv(0.0, 0.0, 0.0), radius: 0.5f32.to_bits() },
                GlowPoint { position: mv(2.0, 1.0, 1.0), normal: mv(0.0, 1.0, 0.0), radius: 0.75f32.to_bits() },
            ],
        }],
        visual_center: mv(0.0, 0.5, 0.0),
        comments: text("made by hand"),
        docking_bays: vec![Dock {
            properties: text("$name=bay"),
            paths: vec![PathId(0)],
            points: vec![
                DockingPoint { position: mv(0.0, -1.0, 1.0), normal: mv(0.0, -1.0, 0.0) },
                DockingPoint { position: mv(0.0, -1.0, -1.0), normal: mv(0.0, -1.0, 0.0) },
            ],
        }],
        insignias: vec![Insignia {
            detail_level: 0,
            vertices: vec![mv(0.0, 0.0, 0.0), mv(1.0, 0.0, 0.0), mv(0.0, 1.0, 0.0)],
            offset: mv(0.0, 2.0, 0.0),
            faces: vec![InsigniaFace {
                a: UvVertex { vertex_id: VertexId(0), u: 0.0f32.to_bits(), v: 0.0f32.to_bits() },
                b: UvVertex { vertex_id: VertexId(1), u: 1.0f32.to_bits(), v: 0.0f32.to_bits() },
                c: UvVertex { vertex_id: VertexId(2), u: 0.0f32.to_bits(), v: 1.0f32.to_bits() },
            }],
        }],
        shield_data: Some(a_shield(version.ge(Version::V21_18))),
    }
}

fn with_version(mut file: Vec<u8>, v: Version) -> Vec<u8> {
    file[4..8].copy_from_slice(&v.to_i32().to_le_bytes());
    file
}

#[test]
fn newest_revision_reads_back_what_was_written() {
    let m = a_model(Version::V23_00);
    let file = encode(&m).unwrap();
    assert_eq!(decode(file, &no_side), Ok(a_model(Version::V23_00)));
}

#[test]
fn writer_always_names_the_newest_revision() {
    for v in [Version::V19_00, Version::V20_16, Version::V21_16, Version::V22_00, Version::V23_00] {
        let file = encode(&a_model(v)).unwrap();
        assert_eq!(&file[..4], b"PSPO");
        assert_eq!(&file[4..8], &2300i32.to_le_bytes());
    }
}

#[test]
fn every_revision_reads_back_under_its_own_number() {
    for v in [
        Version::V20_00,
        Version::V20_02,
        Version::V20_04,
        Version::V20_07,
        Version::V20_09,
        Version::V20_14,
        Version::V20_16,
        Version::V21_16,
        Version::V21_17,
        Version::V21_18,
        Version::V22_00,
        Version::V22_01,
        Version::V23_00,
    ] {
        let mut m = a_model(v);
        if !v.ge(Version::V20_07) {
            m.header.bsp_lights.clear();
        }
        if !v.ge(Version::V20_14) {
            m.header.cross_sections.clear();
        }
        let file = with_version(encode(&m).unwrap(), v);
        let back = decode(file, &no_side).unwrap();
        assert_eq!(back, m, "{:?}", v);
    }
}

#[test]
fn file_without_mass_gets_the_default_mass() {
    let mut m = a_model(Version::V19_00);
    m.header.bsp_lights.clear();
    m.header.cross_sections.clear();
    let file = with_version(encode(&m).unwrap(), Version::V19_00);
    let back = decode(file, &no_side).unwrap();
    assert_eq!(f32::from_bits(back.header.mass), 50.0);
    assert_eq!(back.header.center_of_mass, mv(0.0, 0.0, 0.0));
    assert_eq!(
        back.header.moment_of_inertia,
        Mat3d { rvec: mv(0.001, 0.0, 0.0), uvec: mv(0.0, 0.001, 0.0), fvec: mv(0.0, 0.0, 0.001) }
    );
    assert_eq!(back.header.max_radius, m.header.max_radius);
    assert_eq!(back.header.detail_levels, m.header.detail_levels);
    assert_eq!(back.sub_objects.len(), 3);
}

#[test]
fn mass_layout_follows_the_revision() {
    assert_eq!(Version::V19_00.mass_layout(), MassLayout::Absent);
    assert_eq!(Version::V19_03.mass_layout(), MassLayout::Volume);
    assert_eq!(Version::V20_07.mass_layout(), MassLayout::Volume);
    assert_eq!(Version::V20_09.mass_layout(), MassLayout::Area);
    assert_eq!(Version::V23_00.mass_layout(), MassLayout::Area);
    assert_eq!(Mat3d::default_inertia().uvec, mv(0.0, 0.001, 0.0));
}

#[test]
fn header_fields_swap_across_the_layout_boundary() {
    let h = a_header(7);
    let mut current = Vec::new();
    assert_eq!(write_header_chunk(&mut current, &h, &vec![], Version::V21_16), Ok(()));
    assert_eq!((r32(&current, 0), r32(&current, 4), r32(&current, 8)), (h.max_radius, 3, 7));
    let mut legacy = Vec::new();
    assert_eq!(write_header_chunk(&mut legacy, &h, &vec![ObjectId(4)], Version::V20_16), Ok(()));
    assert_eq!((r32(&legacy, 0), r32(&legacy, 4), r32(&legacy, 8)), (7, h.max_radius, 3));
    let (back, debris, end) = read_header_chunk(&legacy, 0, Version::V20_16).unwrap();
    assert_eq!(back, h);
    assert_eq!(debris, vec![ObjectId(4)]);
    assert_eq!(end, legacy.len());
    let (wrong, _, _) = read_header_chunk(&legacy, 0, Version::V21_16).unwrap();
    assert_eq!(wrong.num_subobjects, 3);
}

#[test]
fn cross_section_count_of_all_ones_means_none() {
    let mut h = a_header(0);
    h.cross_sections.clear();
    h.bsp_lights.clear();
    let mut w = Vec::new();
    write_header_chunk(&mut w, &h, &vec![], Version::V23_00).unwrap();
    let at = w.len() - 8;
    assert_eq!(r32(&w, at), 0);
    w[at..at + 4].copy_from_slice(&[0xff; 4]);
    let (back, _, end) = read_header_chunk(&w, 0, Version::V23_00).unwrap();
    assert_eq!(back, h);
    assert_eq!(end, w.len());
}

#[test]
fn light_of_unknown_kind_is_refused() {
    let mut h = a_header(0);
    h.bsp_lights.truncate(1);
    let mut w = Vec::new();
    write_header_chunk(&mut w, &h, &vec![], Version::V23_00).unwrap();
    let at = w.len() - 4;
    assert_eq!(r32(&w, at), 1);
    w[at] = 3;
    assert_eq!(
        read_header_chunk(&w, 0, Version::V23_00),
        Err(DecodeError::StructuralViolation(Violation::BadValue))
    );
}

#[test]
fn unknown_chunk_is_passed_over() {
    let mut file = file_head(2300);
    chunk(&mut file, b"XTRA", &[1, 2, 3, 4, 5, 6, 7, 8, 9, 10, 11, 12]);
    let mut h = a_header(0);
    h.detail_levels.clear();
    let mut content = Vec::new();
    write_header_chunk(&mut content, &h, &vec![], Version::V23_00).unwrap();
    chunk(&mut file, b"HDR2", &content);
    let m = decode(file, &no_side).unwrap();
    assert_eq!(m.header, h);
    assert_eq!(m.version, Version::V23_00);
    assert!(m.sub_objects.is_empty());
    assert!(m.textures.is_empty());
    assert_eq!(m.shield_data, None);
    assert_eq!(m.visual_center, mv(0.0, 0.0, 0.0));
    assert!(m.comments.is_empty());
}

#[test]
fn unknown_chunk_longer_than_the_file_is_truncated() {
    let mut file = file_head(2300);
    file.extend_from_slice(b"XTRA");
    w32(&mut file, 12);
    file.extend_from_slice(&[0u8; 11]);
    assert_eq!(decode(file, &no_side), Err(DecodeError::TruncatedChunk));
}

#[test]
fn file_that_ends_inside_a_tag_is_truncated() {
    let good = encode(&a_model(Version::V23_00)).unwrap();
    for extra in 1..8 {
        let mut file = good.clone();
        file.extend_from_slice(&b"TXTRxxxx"[..extra]);
        assert_eq!(decode(file, &no_side), Err(DecodeError::TruncatedChunk));
    }
}

#[test]
fn file_cut_anywhere_is_refused() {
    let good = encode(&a_model(Version::V23_00)).unwrap();
    let mut ok = 0;
    for cut in 0..good.len() {
        match decode(good[..cut].to_vec(), &no_side) {
            Ok(m) => {
                assert!(m != a_model(Version::V23_00));
                ok += 1;
            }
            Err(e) => assert!(
                e == DecodeError::TruncatedChunk
                    || e == DecodeError::StructuralViolation(Violation::MissingHeader)
                    || e == DecodeError::StructuralViolation(Violation::UnresolvedSubobject)
                    || e == DecodeError::StructuralViolation(Violation::TreeWithoutMesh),
                "cut at {}: {:?}",
                cut,
                e
            ),
        }
    }
    assert!(ok > 0);
}

#[test]
fn magic_and_version_are_checked() {
    assert_eq!(decode(b"PSP".to_vec(), &no_side), Err(DecodeError::TruncatedChunk));
    assert_eq!(decode(b"OPSP\xfc\x08\x00\x00".to_vec(), &no_side), Err(DecodeError::MalformedMagic));
    assert_eq!(decode(b"PSPO\xfc\x08".to_vec(), &no_side), Err(DecodeError::TruncatedChunk));
    assert_eq!(decode(file_head(2301), &no_side), Err(DecodeError::UnsupportedVersion));
    assert_eq!(decode(file_head(-1), &no_side), Err(DecodeError::UnsupportedVersion));
    assert!(Parser::new(file_head(2116)).is_ok());
    assert_eq!(Parser::new(file_head(2116)).unwrap().version(), Version::V21_16);
}

#[test]
fn file_without_header_is_refused() {
    assert_eq!(
        decode(file_head(2300), &no_side),
        Err(DecodeError::StructuralViolation(Violation::MissingHeader))
    );
    let mut file = file_head(2300);
    chunk(&mut file, b"TXTR", &[0, 0, 0, 0]);
    assert_eq!(decode(file, &no_side), Err(DecodeError::StructuralViolation(Violation::MissingHeader)));
}

fn header_chunk_for(n: u32, debris: Vec<ObjectId>, v: Version) -> Vec<u8> {
    let mut h = a_header(n);
    h.detail_levels.clear();
    let mut content = Vec::new();
    write_header_chunk(&mut content, &h, &debris, v).unwrap();
    let mut w = Vec::new();
    chunk(&mut w, if v.ge(Version::V21_16) { b"HDR2" } else { b"OHDR" }, &content);
    w
}

fn subobject_chunk_for(o: &SubObject, v: Version) -> Vec<u8> {
    let mut w = Vec::new();
    write_subobjects(&mut w, if v.ge(Version::V21_16) { 0x324a424f } else { 0x4a424f53 }, &vec![], v).unwrap();
    assert!(w.is_empty());
    let mut content = Vec::new();
    pof::subobject::write_subobject(&mut content, o, v).unwrap();
    chunk(&mut w, if v.ge(Version::V21_16) { b"OBJ2" } else { b"SOBJ" }, &content);
    w
}

#[test]
fn header_may_come_once() {
    let mut file = file_head(2300);
    file.extend(header_chunk_for(0, vec![], Version::V23_00));
    file.extend(header_chunk_for(0, vec![], Version::V23_00));
    assert_eq!(decode(file, &no_side), Err(DecodeError::StructuralViolation(Violation::DuplicateChunk)));
}

#[test]
fn singleton_chunks_may_come_once() {
    for tag in [b"TXTR", b"PATH", b"SPCL", b"GPNT", b"MPNT", b"FUEL", b"GLOW", b"DOCK", b"INSG"] {
        let mut file = file_head(2300);
        file.extend(header_chunk_for(0, vec![], Version::V23_00));
        chunk(&mut file, tag, &[0, 0, 0, 0]);
        assert!(decode(file.clone(), &no_side).is_ok());
        chunk(&mut file, tag, &[0, 0, 0, 0]);
        assert_eq!(
            decode(file, &no_side),
            Err(DecodeError::StructuralViolation(Violation::DuplicateChunk)),
            "{:?}",
            tag
        );
    }
    let mut file = file_head(2300);
    file.extend(header_chunk_for(0, vec![], Version::V23_00));
    chunk(&mut file, b"EYE ", &[0, 0, 0, 0]);
    chunk(&mut file, b"EYE ", &[0, 0, 0, 0]);
    chunk(&mut file, b"TGUN", &[0, 0, 0, 0]);
    chunk(&mut file, b"TMIS", &[0, 0, 0, 0]);
    chunk(&mut file, b"TGUN", &[0, 0, 0, 0]);
    assert!(decode(file.clone(), &no_side).is_ok());
    chunk(&mut file, b"ACEN", &[0; 12]);
    chunk(&mut file, b"ACEN", &[0; 12]);
    assert_eq!(decode(file, &no_side), Err(DecodeError::StructuralViolation(Violation::DuplicateChunk)));
}

#[test]
fn header_tag_must_agree_with_the_revision() {
    let mut file = file_head(2300);
    let mut wrong = header_chunk_for(0, vec![], Version::V23_00);
    wrong[..4].copy_from_slice(b"OHDR");
    file.extend(wrong);
    assert_eq!(
        decode(file, &no_side),
        Err(DecodeError::StructuralViolation(Violation::TagVersionMismatch))
    );
    let mut file = file_head(2016);
    file.extend(header_chunk_for(0, vec![], Version::V23_00));
    assert_eq!(
        decode(file, &no_side),
        Err(DecodeError::StructuralViolation(Violation::TagVersionMismatch))
    );
}

#[test]
fn subobject_needs_the_header_first() {
    let mut file = file_head(2300);
    file.extend(subobject_chunk_for(&a_subobject(0, None, &[], false), Version::V23_00));
    assert_eq!(decode(file, &no_side), Err(DecodeError::StructuralViolation(Violation::MissingHeader)));
}

#[test]
fn parent_must_come_before_its_child() {
    let v = Version::V23_00;
    let mut file = file_head(2300);
    file.extend(header_chunk_for(2, vec![], v));
    file.extend(subobject_chunk_for(&a_subobject(1, Some(0), &[], false), v));
    file.extend(subobject_chunk_for(&a_subobject(0, None, &[], false), v));
    assert_eq!(
        decode(file, &no_side),
        Err(DecodeError::StructuralViolation(Violation::ParentOutOfOrder))
    );
}

#[test]
fn subobject_chunks_may_come_in_any_order_of_ids() {
    let v = Version::V23_00;
    let mut file = file_head(2300);
    file.extend(header_chunk_for(3, vec![ObjectId(0), ObjectId(2)], v));
    file.extend(subobject_chunk_for(&a_subobject(2, None, &[], false), v));
    file.extend(subobject_chunk_for(&a_subobject(0, Some(2), &[], false), v));
    file.extend(subobject_chunk_for(&a_subobject(1, Some(2), &[], false), v));
    let m = decode(file, &no_side).unwrap();
    assert_eq!(
        m.sub_objects,
        vec![
            a_subobject(0, Some(2), &[], true),
            a_subobject(1, Some(2), &[], false),
            a_subobject(2, None, &[0, 1], true),
        ]
    );
}

#[test]
fn every_slot_must_be_filled() {
    let v = Version::V23_00;
    let mut file = file_head(2300);
    file.extend(header_chunk_for(2, vec![], v));
    file.extend(subobject_chunk_for(&a_subobject(1, None, &[], false), v));
    assert_eq!(
        decode(file, &no_side),
        Err(DecodeError::StructuralViolation(Violation::UnresolvedSubobject))
    );
}

#[test]
fn slot_may_be_filled_once() {
    let v = Version::V23_00;
    let mut file = file_head(2300);
    file.extend(header_chunk_for(2, vec![], v));
    file.extend(subobject_chunk_for(&a_subobject(1, None, &[], false), v));
    file.extend(subobject_chunk_for(&a_subobject(1, None, &[], false), v));
    assert_eq!(decode(file, &no_side), Err(DecodeError::StructuralViolation(Violation::DuplicateChunk)));
}

#[test]
fn ids_must_name_slots() {
    let v = Version::V23_00;
    let mut file = file_head(2300);
    file.extend(header_chunk_for(1, vec![], v));
    file.extend(subobject_chunk_for(&a_subobject(1, None, &[], false), v));
    assert_eq!(decode(file, &no_side), Err(DecodeError::StructuralViolation(Violation::ObjectOutOfRange)));
    let mut file = file_head(2300);
    file.extend(header_chunk_for(1, vec![], v));
    file.extend(subobject_chunk_for(&a_subobject(0, Some(5), &[], false), v));
    assert_eq!(decode(file, &no_side), Err(DecodeError::StructuralViolation(Violation::ObjectOutOfRange)));
    let mut file = file_head(2300);
    file.extend(header_chunk_for(1, vec![ObjectId(1)], v));
    file.extend(subobject_chunk_for(&a_subobject(0, None, &[], false), v));
    assert_eq!(decode(file, &no_side), Err(DecodeError::StructuralViolation(Violation::ObjectOutOfRange)));
}

#[test]
fn chunked_subobject_is_refused() {
    let v = Version::V23_00;
    let o = a_subobject(0, None, &[], false);
    let mut sub = subobject_chunk_for(&o, v);
    let at = 8 + 4 + 20 + 12 + 24 + (4 + 8) + (4 + 20) + 8;
    assert_eq!(r32(&sub, at - 8), 1);
    assert_eq!(r32(&sub, at), 0);
    sub[at] = 1;
    let mut file = file_head(2300);
    file.extend(header_chunk_for(1, vec![], v));
    file.extend(sub);
    assert_eq!(decode(file, &no_side), Err(DecodeError::StructuralViolation(Violation::BadValue)));
}

#[test]
fn turret_must_stand_on_subobjects_that_were_read() {
    let v = Version::V23_00;
    let m = a_model(v);
    let mut turrets = Vec::new();
    write_chunk_vec(&mut turrets, 0x4e554754, &m.turrets, v).unwrap();
    let mut file = file_head(2300);
    file.extend(header_chunk_for(3, vec![], v));
    file.extend(subobject_chunk_for(&a_subobject(0, None, &[], false), v));
    file.extend(subobject_chunk_for(&a_subobject(1, Some(0), &[], false), v));
    file.extend(turrets.clone());
    file.extend(subobject_chunk_for(&a_subobject(2, Some(0), &[], false), v));
    assert_eq!(decode(file, &no_side), Err(DecodeError::StructuralViolation(Violation::TurretOutOfOrder)));
    let mut file = file_head(2300);
    file.extend(header_chunk_for(2, vec![], v));
    file.extend(subobject_chunk_for(&a_subobject(0, None, &[], false), v));
    file.extend(subobject_chunk_for(&a_subobject(1, Some(0), &[], false), v));
    file.extend(turrets);
    assert_eq!(decode(file, &no_side), Err(DecodeError::StructuralViolation(Violation::TurretOutOfOrder)));
}

#[test]
fn turret_chunks_add_up() {
    let v = Version::V23_00;
    let m = a_model(v);
    let mut guns = Vec::new();
    write_chunk_vec(&mut guns, 0x4e554754, &m.turrets, v).unwrap();
    let mut missiles = guns.clone();
    missiles[..4].copy_from_slice(b"TMIS");
    let mut file = file_head(2300);
    file.extend(header_chunk_for(3, vec![], v));
    for o in &m.sub_objects {
        file.extend(subobject_chunk_for(o, v));
    }
    file.extend(guns);
    file.extend(missiles);
    let back = decode(file, &no_side).unwrap();
    assert_eq!(back.turrets.len(), 2);
    assert_eq!(back.turrets[0], m.turrets[0]);
    assert_eq!(back.turrets[1], m.turrets[0]);
}

#[test]
fn shield_tree_needs_its_mesh() {
    let v = Version::V23_00;
    let mut file = file_head(2300);
    file.extend(header_chunk_for(0, vec![], v));
    let mut tree = Vec::new();
    pof::shield::write_shield_node(&mut tree, a_shield(true).collision_tree.as_ref().unwrap(), false).unwrap();
    let mut content = Vec::new();
    w32(&mut content, tree.len() as u32);
    content.extend(tree);
    chunk(&mut file, b"SLC2", &content);
    assert_eq!(decode(file.clone(), &no_side), Err(DecodeError::StructuralViolation(Violation::TreeWithoutMesh)));
    let at = file.len() - content.len() - 8;
    file[at..at + 4].copy_from_slice(b"SLDC");
    assert_eq!(
        decode(file, &no_side),
        Err(DecodeError::StructuralViolation(Violation::TagVersionMismatch))
    );
}

#[test]
fn shield_tree_is_stored_from_its_revision_on() {
    let mut m = a_model(Version::V21_17);
    m.shield_data = Some(a_shield(true));
    let file = with_version(encode(&m).unwrap(), Version::V21_17);
    let back = decode(file, &no_side).unwrap();
    assert_eq!(back.shield_data, Some(a_shield(false)));
    let narrow = encode(&a_model(Version::V21_18)).unwrap();
    assert!(narrow.windows(4).any(|w| w == b"SLDC"));
    assert!(!narrow.windows(4).any(|w| w == b"SLC2"));
    let wide = encode(&a_model(Version::V22_00)).unwrap();
    assert!(wide.windows(4).any(|w| w == b"SLC2"));
}

#[test]
fn comment_block_ends_at_its_first_nul() {
    let v = Version::V23_00;
    let mut file = file_head(2300);
    file.extend(header_chunk_for(0, vec![], v));
    chunk(&mut file, b"PINF", b"hello\0junk\0\0");
    let m = decode(file.clone(), &no_side).unwrap();
    assert_eq!(m.comments, text("hello"));
    chunk(&mut file, b"PINF", b"again");
    assert_eq!(decode(file, &no_side), Err(DecodeError::StructuralViolation(Violation::DuplicateChunk)));
    let mut file = file_head(2300);
    file.extend(header_chunk_for(0, vec![], v));
    file.extend_from_slice(b"PINF");
    w32(&mut file, 9);
    file.extend_from_slice(b"too short");
    file.pop();
    assert_eq!(decode(file, &no_side), Err(DecodeError::TruncatedChunk));
}

#[test]
fn comment_is_padded_like_a_string() {
    let mut m = a_model(Version::V23_00);
    m.comments = text("abcd");
    m.visual_center = mv(0.0, 0.0, 0.0);
    m.shield_data = None;
    m.docking_bays.clear();
    m.insignias.clear();
    let file = encode(&m).unwrap();
    let n = file.len();
    assert_eq!(&file[n - 16..n - 12], b"PINF");
    assert_eq!(r32(&file, n - 12), 8);
    assert_eq!(&file[n - 8..], b"abcd\0\0\0\0");
}

#[test]
fn visual_centre_at_the_origin_is_not_written() {
    let mut m = a_model(Version::V23_00);
    m.visual_center = mv(0.0, -0.0, 0.0);
    let file = encode(&m).unwrap();
    assert!(!file.windows(4).any(|w| w == b"ACEN"));
    m.visual_center = mv(0.0, 0.0, 1.0e-30);
    let file = encode(&m).unwrap();
    let n = file.len();
    assert_eq!(&file[n - 20..n - 16], b"ACEN");
    assert_eq!(r32(&file, n - 16), 12);
}

#[test]
fn empty_lists_write_no_chunk() {
    let mut h = a_header(0);
    h.detail_levels.clear();
    let m = Model {
        version: Version::V23_00,
        header: h,
        sub_objects: vec![],
        textures: vec![],
        paths: vec![],
        special_points: vec![],
        eye_points: vec![],
        primary_weps: vec![],
        secondary_weps: vec![],
        turrets: vec![],
        thruster_banks: vec![],
        glow_banks: vec![],
        visual_center: mv(0.0, 0.0, 0.0),
        comments: Text::empty(),
        docking_bays: vec![],
        insignias: vec![],
        shield_data: None,
    };
    let file = encode(&m).unwrap();
    let mut expected = file_head(2300);
    expected.extend(header_chunk_for(0, vec![], Version::V23_00));
    assert_eq!(file, expected);
    let mut w = vec![1u8];
    assert_eq!(m.write(&mut w), Ok(()));
    assert_eq!(&w[1..], &file[..]);
    assert_eq!(decode(file, &no_side), Ok(m));
}

#[test]
fn chunks_are_written_in_their_order() {
    let file = encode(&a_model(Version::V23_00)).unwrap();
    let mut tags = Vec::new();
    let mut at = 8;
    while at < file.len() {
        tags.push(String::from_utf8(file[at..at + 4].to_vec()).unwrap());
        at += 8 + r32(&file, at + 4) as usize;
    }
    assert_eq!(at, file.len());
    assert_eq!(
        tags,
        vec![
            "HDR2", "OBJ2", "OBJ2", "OBJ2", "TXTR", "PATH", "SPCL", "EYE ", "GPNT", "MPNT", "TGUN",
            "FUEL", "GLOW", "PINF", "DOCK", "INSG", "SHLD", "SLC2", "ACEN"
        ]
    );
    let legacy = encode(&a_model(Version::V20_16)).unwrap();
    assert_eq!(&legacy[8..12], b"OHDR");
    assert!(legacy.windows(4).any(|w| w == b"SOBJ"));
    assert!(!legacy.windows(4).any(|w| w == b"SLDC"));
}

#[test]
fn header_lists_the_debris() {
    let m = a_model(Version::V23_00);
    let file = encode(&m).unwrap();
    let at = 8 + 8 + 12 + 24;
    assert_eq!(r32(&file, at), 2);
    assert_eq!((r32(&file, at + 4), r32(&file, at + 8)), (0, 2));
    assert_eq!(r32(&file, at + 12), 1);
    assert_eq!(r32(&file, at + 16), 1);
}

fn written_ids(objects: &Vec<SubObject>) -> Result<Vec<u32>, EncodeError> {
    let mut w = Vec::new();
    write_subobjects(&mut w, 0x324a424f, objects, Version::V23_00)?;
    let mut ids = Vec::new();
    let mut at = 0;
    while at < w.len() {
        assert_eq!(&w[at..at + 4], b"OBJ2");
        ids.push(r32(&w, at + 8));
        at += 8 + r32(&w, at + 4) as usize;
    }
    Ok(ids)
}

#[test]
fn parents_are_written_before_their_children() {
    let objects = vec![
        a_subobject(0, Some(3), &[], false),
        a_subobject(1, Some(0), &[], false),
        a_subobject(2, None, &[], false),
        a_subobject(3, Some(4), &[], false),
        a_subobject(4, None, &[], false),
    ];
    assert_eq!(written_ids(&objects), Ok(vec![4, 3, 0, 1, 2]));
    assert_eq!(written_ids(&vec![]), Ok(vec![]));
    let in_order = vec![a_subobject(0, None, &[], false), a_subobject(1, Some(0), &[], false)];
    assert_eq!(written_ids(&in_order), Ok(vec![0, 1]));
}

#[test]
fn parents_that_do_not_end_cannot_be_written() {
    let cycle = vec![a_subobject(0, Some(1), &[], false), a_subobject(1, Some(0), &[], false)];
    assert_eq!(written_ids(&cycle), Err(EncodeError::Unrepresentable));
    let own = vec![a_subobject(0, Some(0), &[], false)];
    assert_eq!(written_ids(&own), Err(EncodeError::Unrepresentable));
    let missing = vec![a_subobject(0, Some(7), &[], false)];
    assert_eq!(written_ids(&missing), Err(EncodeError::Unrepresentable));
    let mut m = a_model(Version::V23_00);
    m.sub_objects[0].parent = Some(ObjectId(1));
    assert_eq!(encode(&m), Err(EncodeError::Unrepresentable));
}

#[test]
fn model_with_wide_indices_fits_only_the_newest_revision() {
    let mut m = a_model(Version::V23_00);
    if let BspNode::Leaf { poly, .. } = &mut m.sub_objects[1].bsp_data.collision_tree {
        poly.verts[0].normal_id = NormalId(0x1_0000);
    }
    assert!(encode(&m).is_ok());
    m.version = Version::V22_01;
    assert_eq!(encode(&m), Err(EncodeError::Unrepresentable));
}

#[test]
fn chunk_frames_tag_length_and_content() {
    let mut w = vec![5u8];
    assert_eq!(write_chunk_raw(&mut w, 0x52545854, &vec![1, 2, 3]), Ok(()));
    assert_eq!(w, vec![5, b'T', b'X', b'T', b'R', 3, 0, 0, 0, 1, 2, 3]);
    let mut w = Vec::new();
    assert_eq!(write_chunk(&mut w, 0x4e454341, Some(&mv(1.0, 0.0, 0.0)), Version::V23_00), Ok(()));
    assert_eq!(w, vec![b'A', b'C', b'E', b'N', 12, 0, 0, 0, 0, 0, 0x80, 0x3f, 0, 0, 0, 0, 0, 0, 0, 0]);
    let mut w = Vec::new();
    assert_eq!(write_chunk::<Vec3d>(&mut w, 0x4e454341, None, Version::V23_00), Ok(()));
    assert!(w.is_empty());
    assert_eq!(write_chunk_vec::<Vec3d>(&mut w, 0x4e454341, &vec![], Version::V23_00), Ok(()));
    assert!(w.is_empty());
    assert_eq!(write_chunk_vec(&mut w, 0x52545854, &vec![text("a")], Version::V23_00), Ok(()));
    assert_eq!(w, vec![b'T', b'X', b'T', b'R', 12, 0, 0, 0, 1, 0, 0, 0, 4, 0, 0, 0, b'a', 0, 0, 0]);
}

#[test]
fn movement_numbers_name_movements() {
    assert_eq!(parse_subsys_mov_type(-1), SubsysMovementType::NONE);
    assert_eq!(parse_subsys_mov_type(0), SubsysMovementType::POS);
    assert_eq!(parse_subsys_mov_type(1), SubsysMovementType::ROT);
    assert_eq!(parse_subsys_mov_type(2), SubsysMovementType::ROTSPECIAL);
    assert_eq!(parse_subsys_mov_type(3), SubsysMovementType::TRIGGERED);
    assert_eq!(parse_subsys_mov_type(4), SubsysMovementType::INTRINSICROTATE);
    assert_eq!(parse_subsys_mov_type(5), SubsysMovementType::NONE);
    assert_eq!(parse_subsys_mov_type(i32::MIN), SubsysMovementType::NONE);
    assert_eq!(parse_subsys_mov_axis(-1), SubsysMovementAxis::NONE);
    assert_eq!(parse_subsys_mov_axis(0), SubsysMovementAxis::XAXIS);
    assert_eq!(parse_subsys_mov_axis(1), SubsysMovementAxis::ZAXIS);
    assert_eq!(parse_subsys_mov_axis(2), SubsysMovementAxis::YAXIS);
    assert_eq!(parse_subsys_mov_axis(3), SubsysMovementAxis::OTHER);
    assert_eq!(parse_subsys_mov_axis(4), SubsysMovementAxis::NONE);
    for t in [
        SubsysMovementType::NONE,
        SubsysMovementType::POS,
        SubsysMovementType::ROT,
        SubsysMovementType::ROTSPECIAL,
        SubsysMovementType::TRIGGERED,
        SubsysMovementType::INTRINSICROTATE,
    ] {
        assert_eq!(parse_subsys_mov_type(t.to_i32()), t);
    }
    for a in [
        SubsysMovementAxis::NONE,
        SubsysMovementAxis::XAXIS,
        SubsysMovementAxis::ZAXIS,
        SubsysMovementAxis::YAXIS,
        SubsysMovementAxis::OTHER,
    ] {
        assert_eq!(parse_subsys_mov_axis(a.to_i32()), a);
    }
}

#[test]
fn subobject_fields_swap_across_the_layout_boundary() {
    let o = a_subobject(4, Some(2), &[], false);
    let mut current = Vec::new();
    pof::subobject::write_subobject(&mut current, &o, Version::V21_16).unwrap();
    assert_eq!(r32(&current, 0), 4);
    assert_eq!(r32(&current, 4), o.radius);
    assert_eq!(r32(&current, 8), 2);
    assert_eq!(r32(&current, 12), o.offset.x);
    let mut legacy = Vec::new();
    pof::subobject::write_subobject(&mut legacy, &o, Version::V20_16).unwrap();
    assert_eq!(r32(&legacy, 4), 2);
    assert_eq!(r32(&legacy, 8), o.offset.x);
    assert_eq!(r32(&legacy, 20), o.radius);
    let root = a_subobject(0, None, &[], false);
    let mut w = Vec::new();
    pof::subobject::write_subobject(&mut w, &root, Version::V23_00).unwrap();
    assert_eq!(r32(&w, 8), u32::MAX);
    assert_eq!(pof::subobject::read_subobject(&w, 0, Version::V23_00, &no_side), Ok((root, w.len())));
}

#[test]
fn fields_not_stored_get_their_defaults() {
    let mut m = a_model(Version::V23_00);
    m.version = Version::V20_00;
    m.shield_data = Some(a_shield(false));
    let file = with_version(encode(&m).unwrap(), Version::V20_00);
    let back = decode(file, &no_side).unwrap();
    assert_eq!(back.paths[0].parent, Text::empty());
    assert_eq!(back.paths[0].name, text("$path01"));
    assert_eq!(back.thruster_banks[0].properties, Text::empty());
    assert_eq!(f32::from_bits(back.thruster_banks[0].glows[0].radius), 1.0);
    assert_eq!(f32::from_bits(back.primary_weps[0][0].offset), 0.0);
    assert!(back.header.cross_sections.is_empty());
    assert!(back.header.bsp_lights.is_empty());
    assert_eq!(back.header.mass, m.header.mass);
    let mut n = a_model(Version::V22_00);
    n.primary_weps[0][0].offset = 0.5f32.to_bits();
    let file = with_version(encode(&n).unwrap(), Version::V22_00);
    let back = decode(file, &no_side).unwrap();
    assert_eq!(f32::from_bits(back.primary_weps[0][0].offset), 0.0);
}

#[test]
fn legacy_file_with_a_crowded_leaf_is_normalized() {
    let v = Version::V21_17;
    let m = a_model(v);
    let mut o = a_subobject(0, None, &[], false);
    o.bsp_data.verts = vec![
        mv(0.0, 0.0, 0.0),
        mv(1.0, 0.0, 0.0),
        mv(0.0, 1.0, 0.0),
        mv(0.0, 0.0, 2.0),
        mv(1.0, 0.0, 3.0),
        mv(0.0, 0.0, -10.0),
    ];
    o.bsp_data.norms = vec![mv(0.0, 0.0, 1.0); 6];
    let mut content = Vec::new();
    pof::subobject::write_subobject(&mut content, &o, v).unwrap();
    let tree_at = content.len() - (32 + 80 + 8) ;
    assert_eq!(r32(&content, tree_at), 5);
    let mut bsp = content[..tree_at + 32].to_vec();
    for ids in [[0u16, 1, 2], [2, 3, 4], [4, 5, 0]] {
        w32(&mut bsp, 2);
        w32(&mut bsp, 53);
        bsp.extend_from_slice(&[0u8; 8]);
        bsp.extend_from_slice(&1.0f32.to_le_bytes());
        bsp.extend_from_slice(&[0u8; 16]);
        w32(&mut bsp, 3);
        bsp.push(0);
        for id in ids {
            bsp.extend_from_slice(&id.to_le_bytes());
            bsp.extend_from_slice(&id.to_le_bytes());
        }
    }
    bsp.extend_from_slice(&[0u8; 8]);
    let len_at = tree_at - (b_len(&o) as usize);
    let new_len = (bsp.len() - len_at - 4) as u32;
    bsp[len_at..len_at + 4].copy_from_slice(&new_len.to_le_bytes());
    let mut file = file_head(2117);
    file.extend(header_chunk_for(1, vec![], v));
    chunk(&mut file, b"OBJ2", &bsp);
    let side = |n: Vec3d, p: Vec3d, c: &Vec<Vec3d>| {
        let z = c.iter().map(|v| f32::from_bits(v.z)).sum::<f32>() / c.len() as f32;
        f32::from_bits(n.z) * (z - f32::from_bits(p.z)) >= 0.0
    };
    let back = decode(file, &side).unwrap();
    let mut count = 0;
    let mut stack = vec![&back.sub_objects[0].bsp_data.collision_tree];
    while let Some(n) = stack.pop() {
        match n {
            BspNode::Split { front, back, .. } => {
                stack.push(front);
                stack.push(back);
            }
            BspNode::Leaf { poly, .. } => {
                assert_eq!(poly.verts.len(), 3);
                assert_eq!(poly.texture, TextureId::untextured());
                count += 1;
            }
            BspNode::Empty => {}
        }
    }
    assert_eq!(count, 3);
    assert_eq!(m.version, v);
}

fn b_len(o: &SubObject) -> u32 {
    let n = o.bsp_data.verts.len() as u32;
    let offset = (20 + n + 3) / 4 * 4;
    offset + 12 * (n + o.bsp_data.norms.len() as u32) + 4
}

#[test]
fn parser_reads_field_by_field() {
    let mut file = file_head(2116);
    w32(&mut file, 7);
    file.extend_from_slice(&(-3i32).to_le_bytes());
    file.extend_from_slice(&[8, 0, 0, 0, b'a', b'b', 0, 0, 0, 0, 0, 0]);
    file.extend_from_slice(&[2, 0, 0, 0, 9, 10]);
    for x in [1.0f32, 2.0, 3.0, 4.0, 5.0, 6.0, 7.0, 8.0, 9.0] {
        file.extend_from_slice(&x.to_le_bytes());
    }
    file.extend_from_slice(&[2, 0, 0, 0, 1, 0, 0, 0, 2, 0, 0, 0, 3, 0, 0, 0]);
    file.extend_from_slice(&[0xaa, 0xbb, 0xcc]);
    let mut p = Parser::new(file).unwrap();
    assert_eq!(p.version(), Version::V21_16);
    assert_eq!(p.read_u32(), Ok(7));
    assert_eq!(p.read_i32(), Ok(-3));
    assert_eq!(p.read_string(), Ok(b"ab".to_vec()));
    assert_eq!(p.read_byte_buffer(), Ok(vec![9, 10]));
    assert_eq!(p.read_vec3d(), Ok(mv(1.0, 2.0, 3.0)));
    assert_eq!(p.read_bbox(), Ok(BoundingBox { min: mv(4.0, 5.0, 6.0), max: mv(7.0, 8.0, 9.0) }));
    assert_eq!(p.read_list::<ObjectId>(), Ok(vec![ObjectId(1), ObjectId(2)]));
    assert_eq!(p.read_list_n::<ObjectId>(1), Ok(vec![ObjectId(3)]));
    assert_eq!(p.read_u32(), Err(DecodeError::TruncatedChunk));
    assert_eq!(p.read_bytes(4), Err(DecodeError::TruncatedChunk));
    assert_eq!(p.read_bytes(2), Ok(vec![0xaa, 0xbb]));
    assert_eq!(p.read_bytes(1), Ok(vec![0xcc]));
    assert_eq!(p.read_bytes(0), Ok(vec![]));
    assert_eq!(p.read_vec3d(), Err(DecodeError::TruncatedChunk));
}

#[test]
fn parser_parses_from_where_it_stands() {
    let m = a_model(Version::V23_00);
    let file = encode(&m).unwrap();
    let mut p = Parser::new(file).unwrap();
    assert_eq!(p.parse(&no_side), Ok(a_model(Version::V23_00)));
    assert_eq!(p.parse(&no_side), Err(DecodeError::StructuralViolation(Violation::MissingHeader)));
}

#[test]
fn child_with_a_smaller_id_than_its_parent_reads_back() {
    let mut m = a_model(Version::V23_00);
    m.sub_objects = vec![
        a_subobject(0, Some(2), &[], false),
        a_subobject(1, Some(0), &[], true),
        a_subobject(2, None, &[0], false),
    ];
    m.sub_objects[0].children = vec![ObjectId(1)];
    let file = encode(&m).unwrap();
    let ids: Vec<u32> = {
        let mut out = Vec::new();
        let mut at = 8;
        while at < file.len() {
            if &file[at..at + 4] == b"OBJ2" {
                out.push(r32(&file, at + 8));
            }
            at += 8 + r32(&file, at + 4) as usize;
        }
        out
    };
    assert_eq!(ids, vec![2, 0, 1]);
    let back = decode(file, &no_side).unwrap();
    assert_eq!(back.sub_objects, m.sub_objects);
    assert_eq!(back, m);
}

#[test]
fn children_are_linked_from_the_parents() {
    let subs = vec![
        a_subobject(0, Some(2), &[7, 8], false),
        a_subobject(1, Some(0), &[], true),
        a_subobject(2, None, &[], false),
        a_subobject(3, Some(0), &[9], false),
        a_subobject(4, Some(9), &[], false),
    ];
    let linked = link_children(subs);
    assert_eq!(
        linked,
        vec![
            a_subobject(0, Some(2), &[1, 3], false),
            a_subobject(1, Some(0), &[], true),
            a_subobject(2, None, &[0], false),
            a_subobject(3, Some(0), &[], false),
            a_subobject(4, Some(9), &[], false),
        ]
    );
    assert!(link_children(vec![]).is_empty());
}
