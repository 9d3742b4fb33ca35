use pof::bsp::{BspData, BspNode, PolyVertex, Polygon};
use pof::bsp_build::recalculate;
use pof::bsp_read::{parse_bsp_data, parse_bsp_node, parse_chunk_header};
use pof::bsp_write::{write_bsp_data, write_bsp_node};
use pof::error::{DecodeError, EncodeError, Violation};
use pof::geom::{scalar_le, BoundingBox, Vec3d};
use pof::ids::{NormalId, PolygonId, TextureId, VertexId};
use pof::mesh::{assign_neighbors, fan};
use pof::shield::{parse_shield_node, write_shield_node, ShieldNode, ShieldPolygon};
use pof::version::Version;

fn tv(x: f32, y: f32, z: f32) -> Vec3d {
    Vec3d { x: x.to_bits(), y: y.to_bits(), z: z.to_bits() }
}

fn tf(v: Vec3d) -> [f32; 3] {
    [f32::from_bits(v.x), f32::from_bits(v.y), f32::from_bits(v.z)]
}

fn tbox(min: [f32; 3], max: [f32; 3]) -> BoundingBox {
    BoundingBox { min: tv(min[0], min[1], min[2]), max: tv(max[0], max[1], max[2]) }
}

fn put_u32(w: &mut Vec<u8>, n: u32) {
    w.extend_from_slice(&n.to_le_bytes());
}

fn put_u16(w: &mut Vec<u8>, n: u16) {
    w.extend_from_slice(&n.to_le_bytes());
}

fn put_vec(w: &mut Vec<u8>, v: Vec3d) {
    put_u32(w, v.x);
    put_u32(w, v.y);
    put_u32(w, v.z);
}

fn get_u32(b: &[u8], at: usize) -> u32 {
    u32::from_le_bytes([b[at], b[at + 1], b[at + 2], b[at + 3]])
}

/// The side test of the tests: the side of the plane on which the mean of
/// the corners lies.
fn centroid_side(normal: Vec3d, point: Vec3d, corners: &Vec<Vec3d>) -> bool {
    let n = tf(normal);
    let p = tf(point);
    let mut c = [0.0f32; 3];
    for v in corners {
        let f = tf(*v);
        for k in 0..3 {
            c[k] += f[k] / corners.len() as f32;
        }
    }
    n[0] * (c[0] - p[0]) + n[1] * (c[1] - p[1]) + n[2] * (c[2] - p[2]) >= 0.0
}

fn never_asked(_: Vec3d, _: Vec3d, _: &Vec<Vec3d>) -> bool {
    panic!("the side test is not needed here")
}

fn corner(v: u32, n: u32, s: f32, t: f32) -> PolyVertex {
    PolyVertex { vertex_id: VertexId(v), normal_id: NormalId(n), u: s.to_bits(), v: t.to_bits() }
}

fn flat_corner(v: u32, n: u32) -> PolyVertex {
    PolyVertex { vertex_id: VertexId(v), normal_id: NormalId(n), u: 0, v: 0 }
}

fn triangle(ids: [u32; 3], texture: u32) -> Polygon {
    Polygon {
        normal: tv(0.0, 0.0, 1.0),
        texture: TextureId(texture),
        verts: vec![
            corner(ids[0], ids[0], 0.0, 0.25),
            corner(ids[1], ids[1], 0.5, 0.75),
            corner(ids[2], ids[2], 1.0, 0.125),
        ],
    }
}

fn six_verts() -> Vec<Vec3d> {
    vec![
        tv(0.0, 0.0, 0.0),
        tv(1.0, 0.0, 0.0),
        tv(0.0, 1.0, 0.0),
        tv(0.0, 0.0, 2.0),
        tv(1.0, 0.0, 3.0),
        tv(0.0, 0.0, -10.0),
    ]
}

fn leaves(n: &BspNode, out: &mut Vec<Polygon>) {
    match n {
        BspNode::Split { front, back, .. } => {
            leaves(front, out);
            leaves(back, out);
        }
        BspNode::Leaf { poly, .. } => out.push(poly.clone()),
        BspNode::Empty => {}
    }
}

fn holds(outer: BoundingBox, inner: BoundingBox) -> bool {
    scalar_le(outer.min.x, inner.min.x)
        && scalar_le(outer.min.y, inner.min.y)
        && scalar_le(outer.min.z, inner.min.z)
        && scalar_le(inner.max.x, outer.max.x)
        && scalar_le(inner.max.y, outer.max.y)
        && scalar_le(inner.max.z, outer.max.z)
}

fn boxes_nested(n: &BspNode) -> bool {
    match n {
        BspNode::Split { bbox, front, back } => {
            boxes_nested(front)
                && boxes_nested(back)
                && front.bbox().map_or(true, |b| holds(*bbox, b))
                && back.bbox().map_or(true, |b| holds(*bbox, b))
        }
        _ => true,
    }
}

/// The pools chunk for vertices with one normal each, as a legacy writer
/// would lay it out.
fn pools_chunk(verts: &[Vec3d], declared_norms: u32) -> Vec<u8> {
    let mut w = Vec::new();
    let n = verts.len();
    let offset = (20 + n + 3) / 4 * 4;
    put_u32(&mut w, 1);
    put_u32(&mut w, (offset + 24 * n) as u32);
    put_u32(&mut w, n as u32);
    put_u32(&mut w, declared_norms);
    put_u32(&mut w, offset as u32);
    w.extend(std::iter::repeat(1u8).take(n));
    while w.len() < offset {
        w.push(0);
    }
    for v in verts {
        put_vec(&mut w, *v);
        put_vec(&mut w, tv(0.0, 0.0, 1.0));
    }
    w
}

fn flatpoly_chunk(ids: [u16; 3], size: Option<u32>) -> Vec<u8> {
    let mut w = Vec::new();
    put_u32(&mut w, 2);
    put_u32(&mut w, size.unwrap_or(8 + 12 + 12 + 4 + 4 + 1 + 4 * 3));
    put_vec(&mut w, tv(0.0, 0.0, 1.0));
    put_vec(&mut w, tv(9.0, 9.0, 9.0));
    put_u32(&mut w, 7.5f32.to_bits());
    put_u32(&mut w, 3);
    w.push(0xaa);
    for id in ids {
        put_u16(&mut w, id);
        put_u16(&mut w, id);
    }
    w
}

fn legacy_leaf(polys: &[[u16; 3]]) -> Vec<u8> {
    let mut w = Vec::new();
    put_u32(&mut w, 5);
    put_u32(&mut w, 32);
    put_vec(&mut w, tv(-1.0, -1.0, -1.0));
    put_vec(&mut w, tv(1.0, 1.0, 1.0));
    for p in polys {
        w.extend(flatpoly_chunk(*p, None));
    }
    put_u32(&mut w, 0);
    put_u32(&mut w, 0);
    w
}

fn flat_triangle(ids: [u32; 3]) -> Polygon {
    Polygon {
        normal: tv(0.0, 0.0, 1.0),
        texture: TextureId(u32::MAX),
        verts: vec![flat_corner(ids[0], ids[0]), flat_corner(ids[1], ids[1]), flat_corner(ids[2], ids[2])],
    }
}

#[test]
fn legacy_leaf_of_three_polygons_becomes_three_leaves() {
    let verts = six_verts();
    let mut buf = pools_chunk(&verts, 6);
    buf.extend(legacy_leaf(&[[0, 1, 2], [2, 3, 4], [4, 5, 0]]));
    let data = parse_bsp_data(&buf, Version::V21_17, &centroid_side).unwrap();
    assert_eq!(data.verts, verts);
    assert_eq!(data.norms, vec![tv(0.0, 0.0, 1.0); 6]);
    let mut found = Vec::new();
    leaves(&data.collision_tree, &mut found);
    assert_eq!(found.len(), 3);
    let a = flat_triangle([0, 1, 2]);
    let b = flat_triangle([2, 3, 4]);
    let c = flat_triangle([4, 5, 0]);
    assert_eq!(found, vec![a.clone(), b.clone(), c.clone()]);
    let box_a = tbox([0.0, 0.0, 0.0], [1.0, 1.0, 0.0]);
    let box_b = tbox([0.0, 0.0, 0.0], [1.0, 1.0, 3.0]);
    let box_c = tbox([0.0, 0.0, -10.0], [1.0, 0.0, 3.0]);
    let expected = BspNode::Split {
        bbox: tbox([0.0, 0.0, -10.0], [1.0, 1.0, 3.0]),
        front: Box::new(BspNode::Split {
            bbox: tbox([0.0, 0.0, 0.0], [1.0, 1.0, 3.0]),
            front: Box::new(BspNode::Leaf { bbox: box_a, poly: a }),
            back: Box::new(BspNode::Leaf { bbox: box_b, poly: b }),
        }),
        back: Box::new(BspNode::Leaf { bbox: box_c, poly: c }),
    };
    assert_eq!(data.collision_tree, expected);
    assert!(boxes_nested(&data.collision_tree));
}

#[test]
fn legacy_leaf_of_one_polygon_keeps_its_box() {
    let verts = six_verts();
    let mut buf = pools_chunk(&verts, 6);
    buf.extend(legacy_leaf(&[[0, 1, 2]]));
    let data = parse_bsp_data(&buf, Version::V21_17, &never_asked).unwrap();
    assert_eq!(
        data.collision_tree,
        BspNode::Leaf { bbox: tbox([-1.0, -1.0, -1.0], [1.0, 1.0, 1.0]), poly: flat_triangle([0, 1, 2]) }
    );
}

#[test]
fn legacy_leaf_of_no_polygon_is_empty() {
    let verts = six_verts();
    let mut buf = pools_chunk(&verts, 6);
    buf.extend(legacy_leaf(&[]));
    let data = parse_bsp_data(&buf, Version::V21_17, &never_asked).unwrap();
    assert_eq!(data.collision_tree, BspNode::Empty);
}

#[test]
fn rebuild_puts_each_polygon_in_one_leaf() {
    let verts = six_verts();
    let polys = vec![
        triangle([0, 1, 2], 0),
        triangle([2, 3, 4], 1),
        triangle([4, 5, 0], 2),
        triangle([1, 3, 5], 3),
        triangle([0, 3, 4], 4),
    ];
    let tree = recalculate(&verts, polys.clone(), &centroid_side).unwrap();
    let mut found = Vec::new();
    leaves(&tree, &mut found);
    assert_eq!(found.len(), polys.len());
    for p in &polys {
        assert_eq!(found.iter().filter(|q| *q == p).count(), 1);
    }
    assert!(boxes_nested(&tree));
    assert_eq!(recalculate(&verts, vec![], &centroid_side), Ok(BspNode::Empty));
    let single = recalculate(&verts, vec![triangle([0, 1, 2], 0)], &never_asked).unwrap();
    assert_eq!(
        single,
        BspNode::Leaf { bbox: tbox([0.0, 0.0, 0.0], [1.0, 1.0, 0.0]), poly: triangle([0, 1, 2], 0) }
    );
}

#[test]
fn rebuild_with_everything_in_front_still_ends() {
    let verts = six_verts();
    let polys = vec![triangle([0, 1, 2], 0), triangle([2, 3, 4], 1), triangle([0, 3, 4], 2)];
    let all_front = |_: Vec3d, _: Vec3d, _: &Vec<Vec3d>| true;
    let tree = recalculate(&verts, polys.clone(), &all_front).unwrap();
    let mut found = Vec::new();
    leaves(&tree, &mut found);
    assert_eq!(found, polys);
    let all_back = |_: Vec3d, _: Vec3d, _: &Vec<Vec3d>| false;
    let tree = recalculate(&verts, polys.clone(), &all_back).unwrap();
    let mut found = Vec::new();
    leaves(&tree, &mut found);
    assert_eq!(found, polys);
}

#[test]
fn rebuild_refuses_a_vertex_outside_the_pool() {
    let verts = six_verts();
    let polys = vec![triangle([0, 1, 2], 0), triangle([2, 3, 6], 1)];
    assert_eq!(
        recalculate(&verts, polys, &centroid_side),
        Err(DecodeError::StructuralViolation(Violation::VertexOutOfRange))
    );
    let mut buf = pools_chunk(&verts, 6);
    buf.extend(legacy_leaf(&[[0, 1, 2], [2, 3, 99]]));
    assert_eq!(
        parse_bsp_data(&buf, Version::V21_17, &centroid_side),
        Err(DecodeError::StructuralViolation(Violation::VertexOutOfRange))
    );
}

#[test]
fn recomputed_boxes_hold_their_children() {
    let verts = six_verts();
    let wrong = tbox([5.0, 5.0, 5.0], [6.0, 6.0, 6.0]);
    let tree = BspNode::Split {
        bbox: wrong,
        front: Box::new(BspNode::Leaf { bbox: wrong, poly: triangle([0, 1, 2], 0) }),
        back: Box::new(BspNode::Split {
            bbox: wrong,
            front: Box::new(BspNode::Empty),
            back: Box::new(BspNode::Leaf { bbox: wrong, poly: triangle([3, 4, 5], 0) }),
        }),
    };
    let fixed = tree.recalculate_bboxes(&verts).unwrap();
    let expected = BspNode::Split {
        bbox: tbox([0.0, 0.0, -10.0], [1.0, 1.0, 3.0]),
        front: Box::new(BspNode::Leaf {
            bbox: tbox([0.0, 0.0, 0.0], [1.0, 1.0, 0.0]),
            poly: triangle([0, 1, 2], 0),
        }),
        back: Box::new(BspNode::Split {
            bbox: tbox([0.0, 0.0, -10.0], [1.0, 0.0, 3.0]),
            front: Box::new(BspNode::Empty),
            back: Box::new(BspNode::Leaf {
                bbox: tbox([0.0, 0.0, -10.0], [1.0, 0.0, 3.0]),
                poly: triangle([3, 4, 5], 0),
            }),
        }),
    };
    assert_eq!(fixed, expected);
    assert!(boxes_nested(&fixed));
    let out = BspNode::Leaf { bbox: wrong, poly: triangle([0, 1, 9], 0) };
    assert_eq!(
        out.recalculate_bboxes(&verts),
        Err(DecodeError::StructuralViolation(Violation::VertexOutOfRange))
    );
}

fn sample_tree() -> BspNode {
    BspNode::Split {
        bbox: tbox([0.0, 0.0, -10.0], [1.0, 1.0, 3.0]),
        front: Box::new(BspNode::Leaf {
            bbox: tbox([0.0, 0.0, 0.0], [1.0, 1.0, 0.0]),
            poly: triangle([0, 1, 2], 3),
        }),
        back: Box::new(BspNode::Split {
            bbox: tbox([0.0, 0.0, -10.0], [1.0, 0.0, 3.0]),
            front: Box::new(BspNode::Empty),
            back: Box::new(BspNode::Leaf {
                bbox: tbox([0.0, 0.0, -10.0], [1.0, 0.0, 3.0]),
                poly: triangle([3, 4, 5], u32::MAX),
            }),
        }),
    }
}

fn sample_data() -> BspData {
    BspData {
        verts: six_verts(),
        norms: (0..6).map(|i| tv(i as f32, 0.0, 1.0)).collect(),
        collision_tree: sample_tree(),
    }
}

#[test]
fn tree_reads_back_in_every_revision_that_stores_boxes() {
    for v in [Version::V20_00, Version::V20_16, Version::V21_17, Version::V22_01, Version::V23_00] {
        let data = sample_data();
        let mut buf = Vec::new();
        assert_eq!(write_bsp_data(&mut buf, v, &data), Ok(()));
        assert_eq!(parse_bsp_data(&buf, v, &never_asked), Ok(sample_data()), "{:?}", v);
    }
}

#[test]
fn tree_without_stored_boxes_reads_back_with_recomputed_ones() {
    let data = sample_data();
    let mut buf = Vec::new();
    assert_eq!(write_bsp_data(&mut buf, Version::V19_03, &data), Ok(()));
    let mut legacy = Vec::new();
    assert_eq!(write_bsp_data(&mut legacy, Version::V20_00, &data), Ok(()));
    assert_eq!(legacy.len(), buf.len() + 2 * 24);
    assert_eq!(parse_bsp_data(&buf, Version::V19_03, &never_asked), Ok(sample_data()));
}

#[test]
fn current_leaf_is_one_chunk() {
    let leaf = BspNode::Leaf { bbox: tbox([0.0; 3], [1.0; 3]), poly: triangle([0, 1, 2], 7) };
    let mut buf = Vec::new();
    assert_eq!(write_bsp_node(&mut buf, Version::V23_00, &leaf), Ok(()));
    assert_eq!(buf.len(), 8 + 24 + 12 + 4 + 4 + 3 * 16);
    assert_eq!(get_u32(&buf, 0), 6);
    assert_eq!(get_u32(&buf, 4) as usize, buf.len());
    assert_eq!(get_u32(&buf, 8 + 24 + 12), 7);
    assert_eq!(get_u32(&buf, 8 + 24 + 12 + 4), 3);
    assert_eq!(get_u32(&buf, 52 + 16 + 4), 1);
    assert_eq!(get_u32(&buf, 52 + 16 + 8), 0.5f32.to_bits());
    assert_eq!(parse_bsp_node(&buf, 0, &six_verts(), Version::V23_00, &never_asked), Ok(leaf));
}

#[test]
fn legacy_leaf_is_a_box_a_polygon_and_a_terminator() {
    let leaf = BspNode::Leaf { bbox: tbox([0.0; 3], [1.0; 3]), poly: triangle([0, 1, 2], 7) };
    let mut buf = Vec::new();
    assert_eq!(write_bsp_node(&mut buf, Version::V21_17, &leaf), Ok(()));
    let poly_size = 8 + 12 + 16 + 4 + 4 + 3 * 12;
    assert_eq!(buf.len(), 32 + poly_size + 8);
    assert_eq!((get_u32(&buf, 0), get_u32(&buf, 4)), (5, 32));
    assert_eq!((get_u32(&buf, 32), get_u32(&buf, 36)), (3, poly_size as u32));
    assert_eq!(get_u32(&buf, 32 + 8 + 28), 3);
    assert_eq!(get_u32(&buf, 32 + 8 + 32), 7);
    assert_eq!(&buf[32 + poly_size..], &[0u8; 8]);
    assert_eq!(parse_bsp_node(&buf, 0, &six_verts(), Version::V21_17, &never_asked), Ok(leaf));
}

#[test]
fn empty_tree_is_nothing_or_a_terminator() {
    let mut buf = Vec::new();
    assert_eq!(write_bsp_node(&mut buf, Version::V23_00, &BspNode::Empty), Ok(()));
    assert!(buf.is_empty());
    assert_eq!(write_bsp_node(&mut buf, Version::V22_01, &BspNode::Empty), Ok(()));
    assert_eq!(buf, vec![0u8; 8]);
    assert_eq!(parse_bsp_node(&buf, 0, &vec![], Version::V22_01, &never_asked), Ok(BspNode::Empty));
}

#[test]
fn split_with_empty_front_has_front_offset_zero() {
    let back = BspNode::Leaf { bbox: tbox([0.0; 3], [1.0; 3]), poly: triangle([0, 1, 2], 7) };
    let mut child = Vec::new();
    write_bsp_node(&mut child, Version::V23_00, &back).unwrap();
    let split = BspNode::Split {
        bbox: tbox([0.0; 3], [2.0; 3]),
        front: Box::new(BspNode::Empty),
        back: Box::new(back),
    };
    let mut buf = vec![0xeeu8; 5];
    assert_eq!(write_bsp_node(&mut buf, Version::V23_00, &split), Ok(()));
    let chunk = &buf[5..];
    assert_eq!(get_u32(chunk, 0), 7);
    assert_eq!(get_u32(chunk, 4) as usize, chunk.len());
    assert_eq!(get_u32(chunk, 8), 0);
    assert_eq!(get_u32(chunk, 12), 40);
    assert_eq!(&chunk[40..], &child[..]);
    assert_eq!(parse_bsp_node(&buf, 5, &six_verts(), Version::V23_00, &never_asked), Ok(split));
}

#[test]
fn legacy_split_with_empty_front_has_front_offset_zero() {
    let back = BspNode::Leaf { bbox: tbox([0.0; 3], [1.0; 3]), poly: triangle([0, 1, 2], 7) };
    let mut child = Vec::new();
    write_bsp_node(&mut child, Version::V21_16, &back).unwrap();
    let split = BspNode::Split {
        bbox: tbox([0.0; 3], [2.0; 3]),
        front: Box::new(BspNode::Empty),
        back: Box::new(back),
    };
    let mut buf = Vec::new();
    assert_eq!(write_bsp_node(&mut buf, Version::V21_16, &split), Ok(()));
    assert_eq!(get_u32(&buf, 0), 4);
    assert_eq!(get_u32(&buf, 4) as usize, buf.len() - 8);
    assert_eq!(&buf[8..36], &[0u8; 28]);
    assert_eq!(get_u32(&buf, 36), 0);
    assert_eq!(get_u32(&buf, 40), 80);
    assert_eq!(&buf[44..56], &[0u8; 12]);
    assert_eq!(&buf[80..80 + child.len()], &child[..]);
    assert_eq!(&buf[80 + child.len()..], &[0u8; 8]);
    let mut old = Vec::new();
    assert_eq!(write_bsp_node(&mut old, Version::V19_03, &split), Ok(()));
    assert_eq!(get_u32(&old, 40), 56);
    assert_eq!(old.len(), buf.len() - 24);
}

fn check_offsets(buf: &[u8], start: usize, checked: &mut usize) {
    let tag = get_u32(buf, start);
    if tag != 7 {
        return;
    }
    let size = get_u32(buf, start + 4) as usize;
    for at in [start + 8, start + 12] {
        let off = get_u32(buf, at) as usize;
        if off != 0 {
            assert!(off > 8);
            assert!(off < size);
            assert!(start + off < buf.len());
            *checked += 1;
            check_offsets(buf, start + off, checked);
        }
    }
}

#[test]
fn every_split_offset_points_inside_its_chunk() {
    let mut buf = Vec::new();
    write_bsp_node(&mut buf, Version::V23_00, &sample_tree()).unwrap();
    let mut checked = 0;
    check_offsets(&buf, 0, &mut checked);
    assert_eq!(checked, 3);
}

#[test]
fn normals_are_dealt_out_up_to_the_limit_per_vertex() {
    let data = BspData {
        verts: vec![tv(0.0, 0.0, 0.0), tv(1.0, 0.0, 0.0), tv(2.0, 0.0, 0.0)],
        norms: (0..205).map(|i| tv(i as f32, 0.0, 0.0)).collect(),
        collision_tree: BspNode::Leaf { bbox: tbox([0.0; 3], [1.0; 3]), poly: triangle([0, 1, 2], 0) },
    };
    let mut buf = Vec::new();
    assert_eq!(write_bsp_data(&mut buf, Version::V23_00, &data), Ok(()));
    assert_eq!(get_u32(&buf, 0), 1);
    assert_eq!(get_u32(&buf, 8), 3);
    assert_eq!(get_u32(&buf, 12), 205);
    assert_eq!(get_u32(&buf, 16), 24);
    assert_eq!(&buf[20..24], &[204, 1, 0, 0]);
    assert_eq!(get_u32(&buf, 4) as usize, 24 + 12 * (3 + 205));
    let back = parse_bsp_data(&buf, Version::V23_00, &never_asked).unwrap();
    assert_eq!(back.norms, data.norms);
    assert_eq!(back.verts, data.verts);
}

#[test]
fn pools_are_padded_to_the_buffer_not_the_chunk() {
    let data = sample_data();
    let mut at_zero = Vec::new();
    write_bsp_data(&mut at_zero, Version::V23_00, &data).unwrap();
    assert_eq!(get_u32(&at_zero, 16), 28);
    let mut at_one = vec![0u8];
    write_bsp_data(&mut at_one, Version::V23_00, &data).unwrap();
    assert_eq!(get_u32(&at_one, 17), 27);
    assert_eq!(at_one.len(), at_zero.len());
}

#[test]
fn too_many_normals_cannot_be_written() {
    let mut data = sample_data();
    data.norms = vec![tv(0.0, 0.0, 1.0); 6 * 0xcc + 1];
    let mut buf = Vec::new();
    assert_eq!(write_bsp_data(&mut buf, Version::V23_00, &data), Err(EncodeError::Unrepresentable));
    data.norms.pop();
    let mut buf = Vec::new();
    assert_eq!(write_bsp_data(&mut buf, Version::V23_00, &data), Ok(()));
}

#[test]
fn wide_indices_fit_only_the_current_layout() {
    let leaf = BspNode::Leaf { bbox: tbox([0.0; 3], [1.0; 3]), poly: triangle([0, 1, 70000], 7) };
    let mut buf = Vec::new();
    assert_eq!(write_bsp_node(&mut buf, Version::V23_00, &leaf), Ok(()));
    let mut buf = Vec::new();
    assert_eq!(write_bsp_node(&mut buf, Version::V22_01, &leaf), Err(EncodeError::Unrepresentable));
    let edge = BspNode::Leaf { bbox: tbox([0.0; 3], [1.0; 3]), poly: triangle([0, 1, 65535], 7) };
    let mut buf = Vec::new();
    assert_eq!(write_bsp_node(&mut buf, Version::V22_01, &edge), Ok(()));
}

#[test]
fn normal_counts_must_add_up() {
    let verts = six_verts();
    let mut buf = pools_chunk(&verts, 5);
    buf.extend(legacy_leaf(&[[0, 1, 2]]));
    assert_eq!(
        parse_bsp_data(&buf, Version::V21_17, &never_asked),
        Err(DecodeError::StructuralViolation(Violation::NormalCountMismatch))
    );
}

#[test]
fn tree_must_open_with_the_pools() {
    let buf = legacy_leaf(&[[0, 1, 2]]);
    assert_eq!(
        parse_bsp_data(&buf, Version::V21_17, &never_asked),
        Err(DecodeError::StructuralViolation(Violation::BadTreeTag))
    );
}

#[test]
fn unknown_node_tag_is_refused() {
    let mut buf = Vec::new();
    put_u32(&mut buf, 9);
    put_u32(&mut buf, 8);
    assert_eq!(
        parse_bsp_node(&buf, 0, &vec![], Version::V23_00, &never_asked),
        Err(DecodeError::StructuralViolation(Violation::BadTreeTag))
    );
    let mut run = Vec::new();
    put_u32(&mut run, 5);
    put_u32(&mut run, 32);
    run.extend_from_slice(&[0u8; 24]);
    put_u32(&mut run, 6);
    put_u32(&mut run, 8);
    assert_eq!(
        parse_bsp_node(&run, 0, &vec![], Version::V21_17, &never_asked),
        Err(DecodeError::StructuralViolation(Violation::BadTreeTag))
    );
}

#[test]
fn polygon_chunk_of_size_zero_is_refused() {
    let mut buf = Vec::new();
    put_u32(&mut buf, 5);
    put_u32(&mut buf, 32);
    buf.extend_from_slice(&[0u8; 24]);
    buf.extend(flatpoly_chunk([0, 1, 2], Some(0)));
    put_u32(&mut buf, 0);
    put_u32(&mut buf, 0);
    assert_eq!(
        parse_bsp_node(&buf, 0, &six_verts(), Version::V21_17, &never_asked),
        Err(DecodeError::StructuralViolation(Violation::BadChunkSize))
    );
}

#[test]
fn truncated_tree_is_refused_wherever_it_is_cut() {
    let mut buf = Vec::new();
    write_bsp_data(&mut buf, Version::V23_00, &sample_data()).unwrap();
    for cut in 0..buf.len() {
        assert_eq!(
            parse_bsp_data(&buf[..cut], Version::V23_00, &never_asked),
            Err(DecodeError::TruncatedChunk),
            "cut at {}",
            cut
        );
    }
}

#[test]
fn offset_beyond_the_buffer_is_refused() {
    let mut buf = Vec::new();
    write_bsp_node(&mut buf, Version::V23_00, &sample_tree()).unwrap();
    let far = (buf.len() as u32 + 1).to_le_bytes();
    buf[8..12].copy_from_slice(&far);
    assert_eq!(
        parse_bsp_node(&buf, 0, &six_verts(), Version::V23_00, &never_asked),
        Err(DecodeError::TruncatedChunk)
    );
}

#[test]
fn chunk_header_names_tag_body_and_end() {
    let buf = [0xaau8, 3, 0, 0, 0, 20, 0, 0, 0, 1, 2, 3, 4, 5, 6, 7, 8, 9, 10, 11, 12, 13];
    assert_eq!(parse_chunk_header(&buf, 1, false), Ok((3, 9, 21)));
    let narrow = [0xaau8, 3, 20, 0, 0, 0, 1, 2, 3, 4, 5, 6, 7, 8, 9, 10, 11, 12, 13, 14, 15, 16];
    assert_eq!(parse_chunk_header(&narrow, 1, true), Ok((3, 6, 21)));
    assert_eq!(parse_chunk_header(&narrow[..20], 1, true), Err(DecodeError::TruncatedChunk));
    assert_eq!(parse_chunk_header(&buf[..20], 1, false), Err(DecodeError::TruncatedChunk));
    assert_eq!(parse_chunk_header(&buf, 18, false), Err(DecodeError::TruncatedChunk));
}

fn sample_shield() -> ShieldNode {
    ShieldNode::Split {
        bbox: tbox([-1.0; 3], [1.0; 3]),
        front: Box::new(ShieldNode::Leaf {
            bbox: tbox([-1.0; 3], [0.0; 3]),
            poly_list: vec![PolygonId(0), PolygonId(2)],
        }),
        back: Box::new(ShieldNode::Split {
            bbox: tbox([0.0; 3], [1.0; 3]),
            front: Box::new(ShieldNode::Leaf { bbox: tbox([0.0; 3], [0.5; 3]), poly_list: vec![] }),
            back: Box::new(ShieldNode::Leaf {
                bbox: tbox([0.5; 3], [1.0; 3]),
                poly_list: vec![PolygonId(1)],
            }),
        }),
    }
}

#[test]
fn shield_tree_reads_back_with_either_tag_width() {
    let mut narrow = Vec::new();
    assert_eq!(write_shield_node(&mut narrow, &sample_shield(), true), Ok(()));
    assert_eq!(parse_shield_node(&narrow, Version::V21_18), Ok(sample_shield()));
    let mut wide = Vec::new();
    assert_eq!(write_shield_node(&mut wide, &sample_shield(), false), Ok(()));
    assert_eq!(parse_shield_node(&wide, Version::V22_00), Ok(sample_shield()));
    assert_eq!(parse_shield_node(&wide, Version::V23_00), Ok(sample_shield()));
    assert_eq!(wide.len(), narrow.len() + 3 * 5);
    assert!(parse_shield_node(&wide, Version::V21_18) != Ok(sample_shield()));
}

#[test]
fn shield_split_names_both_children() {
    let mut buf = Vec::new();
    write_shield_node(&mut buf, &sample_shield(), false).unwrap();
    assert_eq!(get_u32(&buf, 0), 0);
    assert_eq!(get_u32(&buf, 4) as usize, buf.len());
    assert_eq!(get_u32(&buf, 32), 40);
    let front_len = 8 + 24 + 4 + 8;
    assert_eq!(get_u32(&buf, 36), 40 + front_len);
    assert_eq!(get_u32(&buf, 40), 1);
    assert_eq!(get_u32(&buf, 44), front_len);
    let mut narrow = Vec::new();
    write_shield_node(&mut narrow, &sample_shield(), true).unwrap();
    assert_eq!(narrow[0], 0);
    assert_eq!(get_u32(&narrow, 1) as usize, narrow.len());
    assert_eq!(get_u32(&narrow, 29), 37);
    assert_eq!(narrow[37], 1);
}

#[test]
fn shield_split_without_a_child_is_refused() {
    let mut buf = Vec::new();
    write_shield_node(&mut buf, &sample_shield(), false).unwrap();
    buf[32..36].copy_from_slice(&[0, 0, 0, 0]);
    assert_eq!(
        parse_shield_node(&buf, Version::V23_00),
        Err(DecodeError::StructuralViolation(Violation::BadValue))
    );
}

#[test]
fn shield_node_with_unknown_tag_is_refused() {
    let mut buf = Vec::new();
    put_u32(&mut buf, 2);
    put_u32(&mut buf, 8);
    assert_eq!(
        parse_shield_node(&buf, Version::V23_00),
        Err(DecodeError::StructuralViolation(Violation::BadTreeTag))
    );
    assert_eq!(parse_shield_node(&buf[..6], Version::V23_00), Err(DecodeError::TruncatedChunk));
}

#[test]
fn polygon_is_cut_into_a_fan() {
    assert_eq!(fan(&vec![1u32, 2, 3, 4, 5]), vec![(1, 2, 3), (1, 3, 4), (1, 4, 5)]);
    assert_eq!(fan(&vec![7u32, 8, 9]), vec![(7, 8, 9)]);
    assert_eq!(fan(&vec![7u32, 8]), vec![]);
    assert_eq!(fan(&Vec::<u32>::new()), vec![]);
}

#[test]
fn neighbours_lie_across_the_edges() {
    let tri = |a: u32, b: u32, c: u32| ShieldPolygon {
        normal: tv(0.0, 0.0, 1.0),
        verts: (VertexId(a), VertexId(b), VertexId(c)),
        neighbors: (PolygonId(9), PolygonId(9), PolygonId(9)),
    };
    // a tetrahedron, wound outwards
    let mesh = vec![tri(0, 1, 2), tri(0, 3, 1), tri(1, 3, 2), tri(2, 3, 0)];
    let linked = assign_neighbors(&mesh);
    let n = |i: usize| (linked[i].neighbors.0 .0, linked[i].neighbors.1 .0, linked[i].neighbors.2 .0);
    assert_eq!(n(0), (1, 2, 3));
    assert_eq!(n(1), (3, 2, 0));
    assert_eq!(n(2), (1, 3, 0));
    assert_eq!(n(3), (2, 1, 0));
    for (a, b) in linked.iter().zip(&mesh) {
        assert_eq!(a.verts, b.verts);
        assert_eq!(a.normal, b.normal);
    }
    // an open edge has the first triangle as its neighbour; of two that share an edge the last one wins
    let open = assign_neighbors(&vec![tri(0, 1, 2), tri(1, 0, 3), tri(1, 0, 4)]);
    assert_eq!(open[0].neighbors, (PolygonId(2), PolygonId(0), PolygonId(0)));
    assert_eq!(open[1].neighbors, (PolygonId(0), PolygonId(0), PolygonId(0)));
    assert!(assign_neighbors(&vec![]).is_empty());
}
