use smdton::sd_json::decimal_to_i64;
use smdton::{JsonNode, SmDtonBuilder, SmDtonMap, SmDtonReader};

fn s(k: &str) -> String {
    k.to_string()
}

#[test]
fn decimal_classification() {
    assert_eq!(decimal_to_i64(true, 15, -1), None);
    assert_eq!(decimal_to_i64(true, 12, 2), Some(1200));
    assert_eq!(decimal_to_i64(false, 5, 0), Some(-5));
    assert_eq!(decimal_to_i64(true, 1, 19), None);
    assert_eq!(decimal_to_i64(true, 1, 18), Some(1_000_000_000_000_000_000));
    assert_eq!(decimal_to_i64(false, 9_223_372_036_854_775_808, 0), Some(i64::MIN));
    assert_eq!(decimal_to_i64(true, 9_223_372_036_854_775_808, 0), None);
    assert_eq!(decimal_to_i64(true, 0, 30000), Some(0));
}

#[test]
fn json_round_trip() {
    let src = JsonNode::Object(vec![
        (s("a"), JsonNode::Int(1)),
        (s("b"), JsonNode::Str(s("x"))),
        (s("c"), JsonNode::Null),
        (s("d"), JsonNode::Array(vec![JsonNode::Bool(true), JsonNode::Null, JsonNode::Int(-3)])),
        (s("e"), JsonNode::Object(vec![(s("f"), JsonNode::Float64(1.5f64.to_bits()))])),
        (s("g"), JsonNode::Str(s("$B64$aGk="))),
    ]);
    let b = SmDtonBuilder::new_from_json(&src).unwrap();
    let buf = b.build();
    let r = SmDtonReader::new(buf.get_buffer());
    let expected = JsonNode::Object(vec![
        (s("a"), JsonNode::Int(1)),
        (s("b"), JsonNode::Str(s("x"))),
        (s("d"), JsonNode::Array(vec![JsonNode::Bool(true), JsonNode::Int(-3)])),
        (s("e"), JsonNode::Object(vec![(s("f"), JsonNode::Float64(1.5f64.to_bits()))])),
        (s("g"), JsonNode::Str(s("$B64$aGk="))),
    ]);
    assert_eq!(r.to_json(1), Some(expected));
}

#[test]
fn json_root_array() {
    let src = JsonNode::Array(vec![
        JsonNode::Array(vec![JsonNode::Int(1)]),
        JsonNode::Object(vec![(s("k"), JsonNode::Str(s("v")))]),
    ]);
    let b = SmDtonBuilder::new_from_json(&src).unwrap();
    assert_eq!(b.nodes.len(), 3);
    let types: Vec<u8> = b.nodes.iter().map(|n| n.smdt).collect();
    assert_eq!(types, vec![smdton::ST::SMDT_ARR, smdton::ST::SMDT_ARR, smdton::ST::SMDT_MAP]);
    let buf = b.build();
    let r = SmDtonReader::new(buf.get_buffer());
    assert_eq!(r.to_json(1), Some(src));
}

#[test]
fn json_with_bad_base64_is_refused() {
    let src = JsonNode::Object(vec![(s("b"), JsonNode::Str(s("$B64$!!!")))]);
    assert!(SmDtonBuilder::new_from_json(&src).is_none());
    let mut b = SmDtonBuilder::new();
    let root = b.create_node(smdton::ST::SMDT_MAP);
    assert!(!b.add_from_json(root, "x", &src));
    assert!(b.add_from_json(root, "y", &JsonNode::Int(4)));
    let buf = b.build();
    let r = SmDtonReader::new(buf.get_buffer());
    assert_eq!(r.get_i64(1, "y"), Some(4));
}

#[test]
fn json_duplicate_keys_keep_last_value() {
    let src = JsonNode::Object(vec![(s("k"), JsonNode::Int(1)), (s("k"), JsonNode::Int(2))]);
    let b = SmDtonBuilder::new_from_json(&src).unwrap();
    let buf = b.build();
    let r = SmDtonReader::new(buf.get_buffer());
    assert_eq!(r.get_i64(1, "k"), Some(2));
    assert_eq!(r.to_json(1), Some(JsonNode::Object(vec![(s("k"), JsonNode::Int(2))])));
}

#[test]
fn flat_map_from_json_skips_nesting() {
    let src = JsonNode::Object(vec![
        (s("n"), JsonNode::Int(3)),
        (s("o"), JsonNode::Object(vec![])),
        (s("z"), JsonNode::Null),
        (s("t"), JsonNode::Str(s("txt"))),
    ]);
    let mut m = SmDtonMap::new();
    m.add_from_json(&src);
    assert_eq!(m.keys, vec![b"n".to_vec(), b"t".to_vec()]);
    let buf = m.build();
    let r = SmDtonReader::new(buf.get_buffer());
    assert_eq!(r.get_i64(1, "n"), Some(3));
    assert_eq!(r.get_string(1, "t"), Some("txt"));
    let mut m2 = SmDtonMap::new();
    m2.add_from_json(&JsonNode::Int(1));
    assert_eq!(m2.keys.len(), 0);
}

#[test]
fn json_empty_key_member_is_kept() {
    let src = JsonNode::Object(vec![
        (s(""), JsonNode::Int(7)),
        (s("k"), JsonNode::Array(vec![JsonNode::Str(s("$B64$aGk=")), JsonNode::Null])),
    ]);
    let b = SmDtonBuilder::new_from_json(&src).unwrap();
    assert_eq!(b.values[0].smdt, smdton::ST::SMDT_I64);
    assert_eq!(b.values[2].smdt, smdton::ST::SMDT_B64);
    assert_eq!(b.values[2].v8a, b"hi".to_vec());
    let buf = b.build();
    let r = SmDtonReader::new(buf.get_buffer());
    assert_eq!(r.get_i64(1, ""), Some(7));
    let expected = JsonNode::Object(vec![
        (s(""), JsonNode::Int(7)),
        (s("k"), JsonNode::Array(vec![JsonNode::Str(s("$B64$aGk="))])),
    ]);
    assert_eq!(r.to_json(1), Some(expected));
}

#[test]
fn json_numbers_keep_their_tags() {
    let src = JsonNode::Object(vec![
        (s("i"), JsonNode::Int(3)),
        (s("n"), JsonNode::Int(-12)),
        (s("f"), JsonNode::Float64(1.5f64.to_bits())),
    ]);
    let b = SmDtonBuilder::new_from_json(&src).unwrap();
    let buf = b.build();
    let r = SmDtonReader::new(buf.get_buffer());
    assert_eq!(r.get_type_by_voff(r.get_field_voff(1, "i")), Some(0x18));
    assert_eq!(r.get_type_by_voff(r.get_field_voff(1, "f")), Some(0x1a));
    assert_eq!(r.get_i64(1, "n"), Some(-12));
    assert_eq!(r.get_f64_bits(1, "f").map(f64::from_bits), Some(1.5));
}

#[test]
fn add_from_json_keys_by_parent_type() {
    let mut b = SmDtonBuilder::new();
    let root = b.create_node(smdton::ST::SMDT_MAP);
    let arr = b.create_node(smdton::ST::SMDT_ARR);
    assert!(b.add_from_json(arr, "ignored", &JsonNode::Int(5)));
    assert!(b.add_from_json(root, "", &JsonNode::Bool(true)));
    assert_eq!(b.nodes[1].values.len(), 1);
    assert_eq!(b.nodes[1].keys.len(), 0);
    assert_eq!(b.nodes[0].keys.len(), 1);
    let buf = b.build();
    let r = SmDtonReader::new(buf.get_buffer());
    assert_eq!(r.get_i64_by_id(2, 0), Some(5));
    assert_eq!(r.get_bool(1, ""), Some(true));
}

#[test]
fn sub_map_lists_each_key_once() {
    let mut b = SmDtonBuilder::new();
    let root = b.create_node(smdton::ST::SMDT_MAP);
    b.add_i64(root, "x", 1);
    b.add_i64(root, "y", 2);
    b.add_i64(root, "x", 3);
    let buf = b.build();
    let r = SmDtonReader::new(buf.get_buffer());
    let m = r.get_sub_map(1);
    assert_eq!(m.len(), 2);
    assert_eq!(m[0].0, "x");
    assert_eq!(m[0].1, r.get_field_voff(1, "x"));
    assert_eq!(r.get_i64_by_voff(m[0].1), Some(3));
    assert_eq!(m[1].0, "y");
}
