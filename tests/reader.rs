use smdton::{JsonNode, SmDtonBuilder, SmDtonData, SmDtonReader, ST};

fn sample() -> smdton::SmDtonBuffer {
    let mut b = SmDtonBuilder::new();
    let root = b.create_node(ST::SMDT_MAP);
    b.add_i64(root, "n", 42);
    b.add_string(root, "s", "text");
    b.add_bool(root, "t", true);
    b.add_bin(root, "bin", b"hi");
    b.build()
}

#[test]
fn type_tag_mismatch_gives_none() {
    let buf = sample();
    let r = SmDtonReader::new(buf.get_buffer());
    assert_eq!(r.get_string(1, "n"), None);
    let voff = r.get_field_voff(1, "n");
    assert!(voff > 0);
    assert_eq!(r.get_string_by_voff(voff), None);
    assert_eq!(r.get_bool_by_voff(voff), None);
    assert_eq!(r.get_bin_by_voff(voff), None);
    assert_eq!(r.get_node_id_by_voff(voff), None);
    assert_eq!(r.get_i64_by_voff(voff), Some(42));
    assert_eq!(r.get_type_by_voff(voff), Some(ST::SMDT_I64));
    assert_eq!(r.get_i64(1, "s"), None);
}

#[test]
fn lookups_on_missing_things() {
    let buf = sample();
    let r = SmDtonReader::new(buf.get_buffer());
    assert_eq!(r.get_field_voff(1, "missing"), 0);
    assert_eq!(r.get_field_voff(0, "n"), 0);
    assert_eq!(r.get_field_voff(2, "n"), 0);
    assert_eq!(r.get_sub_voff(1, 4), 0);
    assert_eq!(r.node_type(0), 0);
    assert_eq!(r.node_type(2), 0);
    assert_eq!(r.node_sub_num(3), 0);
    assert_eq!(r.to_json(2), None);
    assert_eq!(r.get_type_by_voff(100000), None);
}

#[test]
fn reader_header_fields() {
    let buf = sample();
    let r = SmDtonReader::new(buf.get_buffer());
    assert_eq!(r.oz, 1);
    assert_eq!(r.nnum, 1);
    assert_eq!(r.node_off, 6);
    assert_eq!(r.get_int(2), 1);
    let c = r.clone();
    assert_eq!(c.get_i64(1, "n"), Some(42));
}

#[test]
fn reader_over_garbage_never_panics() {
    let empty: [u8; 0] = [];
    let r = SmDtonReader::new(&empty);
    assert_eq!(r.nnum, 0);
    assert_eq!(r.get_i64(1, "a"), None);
    assert_eq!(r.to_json(1), None);
    let junk = [1u8, 1, 5, 0, 0, 0x77, 1, 200];
    let r = SmDtonReader::new(&junk);
    assert_eq!(r.nnum, 5);
    assert_eq!(r.get_i64(1, "a"), None);
    assert_eq!(r.node_sub_num(1), 0);
    assert_eq!(r.get_sub_key(2, 0), None);
    let _ = r.to_json(1);
    let _ = r.get_sub_map(1);
}

#[test]
fn sub_key_and_sub_map() {
    let buf = sample();
    let r = SmDtonReader::new(buf.get_buffer());
    assert_eq!(r.get_sub_key(1, 1), Some("s".to_string()));
    let m = r.get_sub_map(1);
    let keys: Vec<&str> = m.iter().map(|e| e.0.as_str()).collect();
    assert_eq!(keys, vec!["n", "s", "t", "bin"]);
    assert_eq!(m[0].1, r.get_field_voff(1, "n"));
    assert_eq!(r.get_sub_voff(1, 0), m[0].1);
}

#[test]
fn binary_materializes_as_marked_base64() {
    let buf = sample();
    let r = SmDtonReader::new(buf.get_buffer());
    assert_eq!(r.get_bin(1, "bin"), Some(&b"hi"[..]));
    let j = r.to_json(1).unwrap();
    match j {
        JsonNode::Object(f) => {
            assert_eq!(f[3], ("bin".to_string(), JsonNode::Str("$B64$aGk=".to_string())));
            assert_eq!(f[0], ("n".to_string(), JsonNode::Int(42)));
            assert_eq!(f[1], ("s".to_string(), JsonNode::Str("text".to_string())));
            assert_eq!(f[2], ("t".to_string(), JsonNode::Bool(true)));
        }
        _ => panic!("expected an object"),
    }
}

#[test]
fn base64_value_decodes() {
    let d = SmDtonData::new_b64("$B64$aGk=").unwrap();
    assert_eq!(d.smdt, ST::SMDT_B64);
    assert_eq!(d.v8a, b"hi".to_vec());
    assert_eq!(d.len, 2);
    assert!(d.has_len);
    assert!(SmDtonData::new_b64("$B64$!!!").is_none());
    assert!(SmDtonData::new_b64("$B6").is_none());
}

#[test]
fn base64_add_reports_bad_input() {
    let mut b = SmDtonBuilder::new();
    let root = b.create_node(ST::SMDT_MAP);
    assert!(!b.add_base64(root, "b", "$B64$*"));
    assert_eq!(b.values.len(), 0);
    assert!(b.add_base64(root, "b", "$B64$AAEC"));
    assert_eq!(b.values[0].v8a, vec![0u8, 1, 2]);
}

#[test]
fn node_reference_integrity() {
    let mut b = SmDtonBuilder::new();
    let root = b.create_node(ST::SMDT_MAP);
    let arr = b.create_node(ST::SMDT_ARR);
    b.push_i64(arr, 5);
    b.add_node(root, "first", arr);
    b.add_node(root, "second", arr);
    let buf = b.build();
    let r = SmDtonReader::new(buf.get_buffer());
    assert_eq!(r.get_node_id(1, "first"), Some(2));
    assert_eq!(r.get_node_id(1, "second"), Some(2));
    assert_eq!(r.node_type(2), ST::SMDT_ARR);
    let inner = || JsonNode::Array(vec![JsonNode::Int(5)]);
    assert_eq!(r.to_json(2), Some(inner()));
    assert_eq!(
        r.to_json(1),
        Some(JsonNode::Object(vec![
            ("first".to_string(), inner()),
            ("second".to_string(), inner()),
        ]))
    );
}

#[test]
fn nested_array_in_array() {
    let mut b = SmDtonBuilder::new();
    let outer = b.create_node(ST::SMDT_ARR);
    let inner = b.create_node(ST::SMDT_ARR);
    b.push_u8(inner, 3);
    b.push_node(outer, inner);
    let buf = b.build();
    let r = SmDtonReader::new(buf.get_buffer());
    assert_eq!(r.get_node_id_by_id(1, 0), Some(2));
    assert_eq!(
        r.to_json(1),
        Some(JsonNode::Array(vec![JsonNode::Array(vec![JsonNode::Int(3)])]))
    );
}

#[test]
fn self_reference_is_cut() {
    let mut b = SmDtonBuilder::new();
    let root = b.create_node(ST::SMDT_MAP);
    b.add_i64(root, "v", 1);
    b.add_node(root, "me", root);
    let buf = b.build();
    let r = SmDtonReader::new(buf.get_buffer());
    let once = JsonNode::Object(vec![("v".to_string(), JsonNode::Int(1))]);
    assert_eq!(
        r.to_json(1),
        Some(JsonNode::Object(vec![("v".to_string(), JsonNode::Int(1)), ("me".to_string(), once)]))
    );
}

#[test]
fn invalid_utf8_string_gives_none() {
    let mut b = SmDtonBuilder::new();
    let root = b.create_node(ST::SMDT_MAP);
    b.add_string(root, "s", "ok");
    let mut buf = b.build();
    let n = buf.buf.len();
    // value segment ends with: tag, length, 'o', 'k', NUL, sentinel
    assert_eq!(buf.buf[n - 4], b'o');
    buf.buf[n - 4] = 0xFF;
    let r = SmDtonReader::new(buf.get_buffer());
    assert_eq!(r.get_string(1, "s"), None);
    assert_eq!(r.to_json(1), Some(JsonNode::Object(vec![])));
}
