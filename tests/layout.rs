use smdton::su::{get_int, getblkz};
use smdton::{SmDtonBuilder, SmDtonMap, SmDtonReader, ST};

#[test]
fn width_boundary_at_256() {
    assert_eq!(getblkz(200, 55), 1);
    assert_eq!(getblkz(200, 56), 2);
    assert_eq!(getblkz(0, 255), 1);
    assert_eq!(getblkz(256, 0), 2);
}

#[test]
fn width_boundary_at_65536() {
    assert_eq!(getblkz(65515, 10), 2);
    assert_eq!(getblkz(65516, 10), 4);
    assert_eq!(getblkz(1000, 32267), 2);
    assert_eq!(getblkz(1000, 32268), 4);
}

#[test]
fn get_int_reads_little_endian() {
    let b = [0x34u8, 0x12, 0x00, 0x01];
    assert_eq!(get_int(&b, 0, 1), 0x34);
    assert_eq!(get_int(&b, 0, 2), 0x1234);
    assert_eq!(get_int(&b, 0, 4), 0x0100_1234);
    assert_eq!(get_int(&b, 1, 2), 0x0012);
    assert_eq!(get_int(&b, 0, 3), 0);
}

#[test]
fn tree_builder_exact_bytes() {
    let mut b = SmDtonBuilder::new();
    let root = b.create_node(ST::SMDT_MAP);
    assert_eq!(root, 1);
    b.add_u8(root, "a", 7);
    let buf = b.build();
    assert_eq!(
        buf.get_buffer(),
        &[1u8, 1, 1, 1, 1, 0x77, 1, 8, 1, 12, 16, 0x77, 2, 0x61, 0, 0x77, 0x12, 7, 0x77][..]
    );
    assert_eq!(buf.off, buf.buf.len());
}

#[test]
fn map_builder_exact_bytes() {
    let mut m = SmDtonMap::new();
    m.add_u8("a", 7);
    let buf = m.build();
    assert_eq!(
        buf.get_buffer(),
        &[1u8, 1, 1, 1, 1, 0x77, 1, 8, 1, 12, 16, 0x77, 2, 0x61, 0, 0x77, 0x12, 7, 0x77][..]
    );
}

#[test]
fn empty_builder_layout() {
    let b = SmDtonBuilder::new();
    let buf = b.build();
    assert_eq!(buf.get_buffer(), &[1u8, 1, 0, 0, 0, 0x77, 0x77, 0x77, 0x77][..]);
    assert!(!buf.is_empty());
}

#[test]
fn string_value_layout() {
    let mut b = SmDtonBuilder::new();
    let root = b.create_node(ST::SMDT_MAP);
    b.add_string(root, "k", "hi");
    let buf = b.build();
    let bytes = buf.get_buffer();
    // value segment: tag, length with NUL, text, NUL, sentinel
    let n = bytes.len();
    assert_eq!(&bytes[n - 6..], &[0x21u8, 3, b'h', b'i', 0, 0x77][..]);
}

#[test]
fn wide_buffer_uses_width_two() {
    let mut b = SmDtonBuilder::new();
    let root = b.create_node(ST::SMDT_MAP);
    let blob = vec![9u8; 300];
    b.add_bin(root, "blob", &blob);
    b.add_i32(root, "n", -5);
    let buf = b.build();
    assert_eq!(buf.get_buffer()[1], 2);
    let r = SmDtonReader::new(buf.get_buffer());
    assert_eq!(r.get_bin(1, "blob"), Some(&blob[..]));
    assert_eq!(r.get_i32(1, "n"), Some(-5));
}

#[test]
fn key_dedup_across_nodes() {
    let mut b = SmDtonBuilder::new();
    let mut ids = Vec::new();
    for i in 0..3 {
        let id = b.create_node(ST::SMDT_MAP);
        b.add_i64(id, "shared", 10 + i);
        ids.push(id);
    }
    assert_eq!(b.keys.len(), 1);
    let buf = b.build();
    let bytes = buf.get_buffer();
    let needle = [b's', b'h', b'a', b'r', b'e', b'd', 0u8];
    let hits = bytes.windows(needle.len()).filter(|w| *w == &needle[..]).count();
    assert_eq!(hits, 1);
    let r = SmDtonReader::new(bytes);
    for (i, id) in ids.iter().enumerate() {
        assert_eq!(r.get_i64(*id, "shared"), Some(10 + i as i64));
    }
}

#[test]
fn duplicate_key_later_wins() {
    let mut b = SmDtonBuilder::new();
    let root = b.create_node(ST::SMDT_MAP);
    b.add_i64(root, "x", 1);
    b.add_i64(root, "x", 2);
    let buf = b.build();
    let r = SmDtonReader::new(buf.get_buffer());
    assert_eq!(r.get_i64(1, "x"), Some(2));
    assert_eq!(r.node_sub_num(1), 2);
    assert_eq!(r.get_i64_by_id(1, 0), Some(1));
    assert_eq!(r.get_i64_by_id(1, 1), Some(2));
    assert_eq!(r.get_sub_key(1, 0), Some("x".to_string()));
}

#[test]
fn bad_node_ids_are_no_ops() {
    let mut b = SmDtonBuilder::new();
    let root = b.create_node(ST::SMDT_MAP);
    let arr = b.create_node(ST::SMDT_ARR);
    b.add_i64(0, "a", 1);
    b.add_i64(9, "a", 1);
    b.push_i64(9, 1);
    b.push_i64(root, 1);
    b.add_i64(arr, "a", 1);
    b.add_node(root, "n", 7);
    assert_eq!(b.values.len(), 0);
    assert_eq!(b.keys.len(), 0);
}

#[test]
fn array_push_and_read_by_index() {
    let mut b = SmDtonBuilder::new();
    let arr = b.create_node(ST::SMDT_ARR);
    b.push_bool(arr, true);
    b.push_u16(arr, 65535);
    b.push_string(arr, "s");
    b.push_u64(arr, u64::MAX);
    let buf = b.build();
    let r = SmDtonReader::new(buf.get_buffer());
    assert_eq!(r.node_type(1), ST::SMDT_ARR);
    assert_eq!(r.node_sub_num(1), 4);
    assert_eq!(r.get_bool_by_id(1, 0), Some(true));
    assert_eq!(r.get_u16_by_id(1, 1), Some(65535));
    assert_eq!(r.get_string_by_id(1, 2), Some("s"));
    assert_eq!(r.get_u64_by_id(1, 3), Some(u64::MAX));
    assert_eq!(r.get_u64_by_id(1, 4), None);
    assert_eq!(r.get_sub_key(1, 0), None);
}

#[test]
fn float_values_by_bits() {
    let mut b = SmDtonBuilder::new();
    let root = b.create_node(ST::SMDT_MAP);
    b.add_f64_bits(root, "f", 1.5f64.to_bits());
    b.add_f32_bits(root, "g", (-0.25f32).to_bits());
    let buf = b.build();
    let r = SmDtonReader::new(buf.get_buffer());
    assert_eq!(r.get_f64_bits(1, "f").map(f64::from_bits), Some(1.5));
    assert_eq!(r.get_f32_bits(1, "g").map(f32::from_bits), Some(-0.25));
}

#[test]
fn signed_values_round_trip() {
    let mut m = SmDtonMap::new();
    m.add_i16("a", -2);
    m.add_i32("b", i32::MIN);
    m.add_i64("c", -1);
    m.add_u32("d", u32::MAX);
    m.add_u8("e", 200);
    let buf = m.build();
    let r = SmDtonReader::new(buf.get_buffer());
    assert_eq!(r.get_i16(1, "a"), Some(-2));
    assert_eq!(r.get_i32(1, "b"), Some(i32::MIN));
    assert_eq!(r.get_i64(1, "c"), Some(-1));
    assert_eq!(r.get_u32(1, "d"), Some(u32::MAX));
    assert_eq!(r.get_u8(1, "e"), Some(200));
}

#[test]
fn large_buffer_uses_width_four() {
    let mut b = SmDtonBuilder::new();
    let root = b.create_node(ST::SMDT_MAP);
    let blob = vec![7u8; 70000];
    b.add_bin(root, "big", &blob);
    b.add_u64(root, "n", 5);
    let buf = b.build();
    assert_eq!(buf.get_buffer()[1], 4);
    let r = SmDtonReader::new(buf.get_buffer());
    assert_eq!(r.get_bin(1, "big").map(|s| s.len()), Some(70000));
    assert_eq!(r.get_u64(1, "n"), Some(5));
}

#[test]
fn built_length_matches_estimate() {
    let mut b = SmDtonBuilder::new();
    let root = b.create_node(ST::SMDT_MAP);
    let arr = b.create_node(ST::SMDT_ARR);
    b.add_string(root, "name", "value");
    b.add_node(root, "list", arr);
    b.push_i16(arr, -7);
    b.push_bool(arr, false);
    let buf = b.build();
    // fixed: 6 + nodes 2 + key text 5+5 + values 4 + payloads 6+0+2+1 = 31
    // slots: 3 + nodes 2 + keys 2 + length fields 2 + tables (1+2+2)+(1+2) = 17
    assert_eq!(buf.buf.len(), 31 + 17);
}
