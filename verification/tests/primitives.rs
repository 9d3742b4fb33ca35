use pof::bytes::{
    align_buf, read_byte_buffer, read_bytes, read_i32, read_list, read_list_n, read_string,
    read_u16, read_u32, read_u8, reversed, write_bytes, write_i32, write_string, write_u16,
    write_u32, write_u8, write_zeros, Fixup, Record, Text,
};
use pof::error::{DecodeError, EncodeError};
use pof::geom::{
    read_bbox, read_vec3d, scalar_le, tight_box_of, write_bbox, write_vec3d, BoundingBox, Vec3d,
};
use pof::ids::{ObjectId, TextureId};
use pof::version::Version;

fn prim_vec(x: f32, y: f32, z: f32) -> Vec3d {
    Vec3d { x: x.to_bits(), y: y.to_bits(), z: z.to_bits() }
}

#[test]
fn version_numbers_round_trip() {
    let all = [
        (Version::V19_00, 1900),
        (Version::V19_03, 1903),
        (Version::V20_00, 2000),
        (Version::V20_02, 2002),
        (Version::V20_04, 2004),
        (Version::V20_07, 2007),
        (Version::V20_09, 2009),
        (Version::V20_14, 2014),
        (Version::V20_16, 2016),
        (Version::V21_16, 2116),
        (Version::V21_17, 2117),
        (Version::V21_18, 2118),
        (Version::V22_00, 2200),
        (Version::V22_01, 2201),
        (Version::V23_00, 2300),
    ];
    for (v, n) in all {
        assert_eq!(v.to_i32(), n);
        assert_eq!(Version::from_i32(n), Some(v));
    }
    assert_eq!(Version::from_i32(2301), None);
    assert_eq!(Version::from_i32(0), None);
    assert_eq!(Version::from_i32(-2300), None);
    assert_eq!(Version::newest(), Version::V23_00);
}

#[test]
fn versions_are_ordered_by_number() {
    assert!(Version::V21_16.ge(Version::V21_16));
    assert!(Version::V21_17.ge(Version::V21_16));
    assert!(!Version::V20_16.ge(Version::V21_16));
    assert!(Version::V20_07.gt(Version::V20_04));
    assert!(!Version::V20_04.gt(Version::V20_04));
    assert!(Version::V23_00.ge(Version::V19_00));
}

#[test]
fn u32_is_read_low_byte_first() {
    let buf = [0x78u8, 0x56, 0x34, 0x12, 0xff];
    assert_eq!(read_u32(&buf, 0), Ok((0x1234_5678, 4)));
    assert_eq!(read_u32(&buf, 1), Ok((0xff12_3456, 5)));
    assert_eq!(read_u32(&buf, 2), Err(DecodeError::TruncatedChunk));
    assert_eq!(read_u32(&buf, 9), Err(DecodeError::TruncatedChunk));
    assert_eq!(read_u32(&buf, usize::MAX), Err(DecodeError::TruncatedChunk));
}

#[test]
fn u16_and_u8_are_read() {
    let buf = [0x34u8, 0x12, 0x07];
    assert_eq!(read_u16(&buf, 0), Ok((0x1234, 2)));
    assert_eq!(read_u16(&buf, 1), Ok((0x0712, 3)));
    assert_eq!(read_u16(&buf, 2), Err(DecodeError::TruncatedChunk));
    assert_eq!(read_u8(&buf, 2), Ok((7, 3)));
    assert_eq!(read_u8(&buf, 3), Err(DecodeError::TruncatedChunk));
}

#[test]
fn i32_is_read_as_twos_complement() {
    assert_eq!(read_i32(&[0xff, 0xff, 0xff, 0xff], 0), Ok((-1, 4)));
    assert_eq!(read_i32(&[0x00, 0x00, 0x00, 0x80], 0), Ok((i32::MIN, 4)));
    assert_eq!(read_i32(&[0xfc, 0x08, 0x00, 0x00], 0), Ok((2300, 4)));
    assert_eq!(read_i32(&[0xfc, 0x08, 0x00], 0), Err(DecodeError::TruncatedChunk));
}

#[test]
fn scalars_are_written_low_byte_first() {
    let mut w = vec![9u8];
    write_u32(&mut w, 0x1234_5678);
    write_u16(&mut w, 0xabcd);
    write_u8(&mut w, 0xee);
    write_i32(&mut w, -2);
    assert_eq!(w, vec![9, 0x78, 0x56, 0x34, 0x12, 0xcd, 0xab, 0xee, 0xfe, 0xff, 0xff, 0xff]);
}

#[test]
fn scalars_read_back_what_was_written() {
    for n in [0u32, 1, 255, 256, 65535, 65536, 0x00ff_ffff, 0x0100_0000, 0x7fff_ffff, 0x8000_0000, u32::MAX] {
        let mut w = Vec::new();
        write_u32(&mut w, n);
        assert_eq!(w.len(), 4);
        assert_eq!(read_u32(&w, 0), Ok((n, 4)));
    }
    for n in [0i32, 1, -1, i32::MAX, i32::MIN, 2300, -2300] {
        let mut w = Vec::new();
        write_i32(&mut w, n);
        assert_eq!(read_i32(&w, 0), Ok((n, 4)));
    }
    for n in [0u16, 1, 255, 256, u16::MAX] {
        let mut w = Vec::new();
        write_u16(&mut w, n);
        assert_eq!(read_u16(&w, 0), Ok((n, 2)));
    }
}

#[test]
fn raw_bytes_are_copied() {
    let buf = [1u8, 2, 3, 4, 5];
    assert_eq!(read_bytes(&buf, 1, 3), Ok((vec![2, 3, 4], 4)));
    assert_eq!(read_bytes(&buf, 5, 0), Ok((vec![], 5)));
    assert_eq!(read_bytes(&buf, 3, 3), Err(DecodeError::TruncatedChunk));
    let mut w = vec![7u8];
    write_bytes(&mut w, &buf);
    write_zeros(&mut w, 2);
    assert_eq!(w, vec![7, 1, 2, 3, 4, 5, 0, 0]);
}

#[test]
fn byte_buffer_has_a_length_prefix() {
    let buf = [3u8, 0, 0, 0, 10, 11, 12, 13];
    assert_eq!(read_byte_buffer(&buf, 0), Ok((vec![10, 11, 12], 7)));
    let short = [5u8, 0, 0, 0, 10, 11, 12, 13];
    assert_eq!(read_byte_buffer(&short, 0), Err(DecodeError::TruncatedChunk));
}

#[test]
fn string_is_padded_to_four_with_at_least_one_nul() {
    let cases: [(&[u8], usize); 6] =
        [(b"", 4), (b"a", 4), (b"ab", 4), (b"abc", 4), (b"abcd", 8), (b"abcde", 8)];
    for (text, padded) in cases {
        let mut w = Vec::new();
        assert_eq!(write_string(&mut w, &text.to_vec()), Ok(()));
        assert_eq!(w.len(), 4 + padded);
        assert_eq!(read_u32(&w, 0), Ok((padded as u32, 4)));
        assert_eq!(&w[4..4 + text.len()], text);
        assert!(w[4 + text.len()..].iter().all(|&b| b == 0));
        assert_eq!(read_string(&w, 0), Ok((text.to_vec(), 4 + padded)));
    }
}

#[test]
fn string_ends_before_its_first_nul() {
    let buf = [8u8, 0, 0, 0, b'h', b'i', 0, b'x', 0, 0, 0, 0, 99];
    assert_eq!(read_string(&buf, 0), Ok((b"hi".to_vec(), 12)));
    let no_nul = [2u8, 0, 0, 0, b'h', b'i'];
    assert_eq!(read_string(&no_nul, 0), Ok((b"hi".to_vec(), 6)));
    let cut = [8u8, 0, 0, 0, b'h', b'i'];
    assert_eq!(read_string(&cut, 0), Err(DecodeError::TruncatedChunk));
}

#[test]
fn text_record_reads_and_writes_strings() {
    let t = Text::new(b"fighter".to_vec());
    let mut w = Vec::new();
    assert_eq!(t.write_to(&mut w, Version::V23_00), Ok(()));
    assert_eq!(w.len(), 12);
    assert_eq!(Text::read(&w, 0, Version::V23_00), Ok((t, 12)));
    assert!(Text::empty().is_empty());
    assert!(!Text::new(vec![1]).is_empty());
}

#[test]
fn align_pads_to_a_multiple_of_four() {
    for (len, padded) in [(0usize, 0usize), (1, 4), (2, 4), (3, 4), (4, 4), (5, 8), (21, 24)] {
        let mut w = vec![7u8; len];
        align_buf(&mut w);
        assert_eq!(w.len(), padded);
        assert!(w[..len].iter().all(|&b| b == 7));
        assert!(w[len..].iter().all(|&b| b == 0));
    }
}

#[test]
fn fixup_backpatches_the_distance_from_its_base() {
    let mut buf = vec![1u8, 2, 3];
    let base = 1;
    let fix = Fixup::new(&mut buf, base);
    assert_eq!(buf, vec![1, 2, 3, 0, 0, 0, 0]);
    buf.extend_from_slice(&[9, 9, 9, 9, 9]);
    assert_eq!(fix.finish(&mut buf), Ok(11));
    assert_eq!(buf, vec![1, 2, 3, 11, 0, 0, 0, 9, 9, 9, 9, 9]);
}

#[test]
fn list_has_a_count_and_that_many_items() {
    let mut w = Vec::new();
    let ids = vec![ObjectId(5), ObjectId(6), ObjectId(0xffff_ffff)];
    assert_eq!(ids.write_to(&mut w, Version::V23_00), Ok(()));
    assert_eq!(w, vec![3, 0, 0, 0, 5, 0, 0, 0, 6, 0, 0, 0, 0xff, 0xff, 0xff, 0xff]);
    assert_eq!(read_list::<ObjectId>(&w, 0, Version::V23_00), Ok((ids, 16)));
    assert_eq!(
        read_list_n::<ObjectId>(&w, 4, 2, Version::V23_00),
        Ok((vec![ObjectId(5), ObjectId(6)], 12))
    );
    assert_eq!(read_list_n::<ObjectId>(&w, 4, 4, Version::V23_00), Err(DecodeError::TruncatedChunk));
    assert_eq!(read_list::<ObjectId>(&w[..15], 0, Version::V23_00), Err(DecodeError::TruncatedChunk));
    let empty: Vec<ObjectId> = vec![];
    let mut e = Vec::new();
    assert_eq!(empty.write_to(&mut e, Version::V23_00), Ok(()));
    assert_eq!(e, vec![0, 0, 0, 0]);
}

#[test]
fn nested_lists_read_back() {
    let banks: Vec<Vec<u32>> = vec![vec![1, 2], vec![], vec![3]];
    let mut w = Vec::new();
    assert_eq!(banks.write_to(&mut w, Version::V23_00), Ok(()));
    assert_eq!(w.len(), 4 + (4 + 8) + 4 + (4 + 4));
    assert_eq!(<Vec<Vec<u32>> as Record>::read(&w, 0, Version::V23_00), Ok((banks, 28)));
}

#[test]
fn reversed_turns_a_vector_around() {
    assert_eq!(reversed(vec![1, 2, 3, 4]), vec![4, 3, 2, 1]);
    assert_eq!(reversed(Vec::<u8>::new()), Vec::<u8>::new());
}

#[test]
fn vectors_and_boxes_are_coordinates_in_order() {
    let v = prim_vec(1.0, -2.5, 0.0);
    let mut w = Vec::new();
    write_vec3d(&mut w, v);
    assert_eq!(w, vec![0, 0, 0x80, 0x3f, 0, 0, 0x20, 0xc0, 0, 0, 0, 0]);
    assert_eq!(read_vec3d(&w, 0), Ok((v, 12)));
    let b = BoundingBox { min: prim_vec(-1.0, -1.0, -1.0), max: prim_vec(2.0, 3.0, 4.0) };
    let mut w = Vec::new();
    write_bbox(&mut w, b);
    assert_eq!(w.len(), 24);
    assert_eq!(read_bbox(&w, 0), Ok((b, 24)));
    assert_eq!(read_bbox(&w[..23], 0), Err(DecodeError::TruncatedChunk));
    assert_eq!(read_vec3d(&w, 13), Err(DecodeError::TruncatedChunk));
}

#[test]
fn scalar_order_follows_the_numbers() {
    let xs = [f32::NEG_INFINITY, -1.0e30, -2.5, -1.0, -1.0e-30, -0.0, 0.0, 1.0e-30, 1.0, 2.5, 1.0e30, f32::INFINITY];
    for a in xs {
        for b in xs {
            assert_eq!(scalar_le(a.to_bits(), b.to_bits()), a <= b, "{} <= {}", a, b);
        }
    }
}

#[test]
fn tight_box_holds_every_point() {
    let pts = vec![prim_vec(1.0, 5.0, -3.0), prim_vec(-2.0, 6.0, 0.0), prim_vec(0.5, -7.0, 2.0)];
    let b = tight_box_of(&pts);
    assert_eq!(b, BoundingBox { min: prim_vec(-2.0, -7.0, -3.0), max: prim_vec(1.0, 6.0, 2.0) });
    assert_eq!(tight_box_of(&vec![]), BoundingBox::zero());
    let one = vec![prim_vec(3.0, 4.0, 5.0)];
    assert_eq!(tight_box_of(&one), BoundingBox { min: one[0], max: one[0] });
}

#[test]
fn union_holds_both_boxes() {
    let a = BoundingBox { min: prim_vec(0.0, 0.0, 0.0), max: prim_vec(1.0, 1.0, 1.0) };
    let b = BoundingBox { min: prim_vec(-1.0, 0.5, 0.5), max: prim_vec(0.5, 2.0, 0.75) };
    let u = a.union(b);
    assert_eq!(u, BoundingBox { min: prim_vec(-1.0, 0.0, 0.0), max: prim_vec(1.0, 2.0, 1.0) });
    assert_eq!(a.extend(prim_vec(5.0, -5.0, 0.5)).max, prim_vec(5.0, 1.0, 1.0));
    assert_eq!(Vec3d::zero(), prim_vec(0.0, 0.0, 0.0));
}

#[test]
fn untextured_is_all_ones() {
    assert_eq!(TextureId::untextured(), TextureId(u32::MAX));
}

#[test]
fn encode_error_is_one_value() {
    assert_eq!(EncodeError::Unrepresentable, EncodeError::Unrepresentable);
}
