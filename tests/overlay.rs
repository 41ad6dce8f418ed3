use smdton::sd_json::{merge_top, overlay_json, set_field};
use smdton::{JsonNode, SmDton, SmDtonBuffer, SmDtonBuilder, SmDtonMap, SmDtonPair};

fn map_of(fields: &[(&str, i64)]) -> SmDtonBuffer {
    let mut m = SmDtonMap::new();
    for (k, v) in fields {
        m.add_i64(k, *v);
    }
    m.build()
}

fn s(k: &str) -> String {
    k.to_string()
}

#[test]
fn overlay_precedence() {
    let pair = SmDtonPair::new(map_of(&[("a", 1), ("b", 2)]), map_of(&[("b", 3), ("c", 4)]));
    let d = SmDton::new_from_pair(&pair);
    assert_eq!(d.get_i64("a"), Some(1));
    assert_eq!(d.get_i64("b"), Some(3));
    assert_eq!(d.get_i64("c"), Some(4));
    assert_eq!(d.get_i64("z"), None);
    assert_eq!(
        d.to_json(),
        Some(JsonNode::Object(vec![
            (s("a"), JsonNode::Int(1)),
            (s("b"), JsonNode::Int(3)),
            (s("c"), JsonNode::Int(4)),
        ]))
    );
}

#[test]
fn empty_facade_answers_nothing() {
    let empty = SmDtonBuffer::new();
    assert!(empty.is_empty());
    let d = SmDton::new_from_buffer(&empty);
    assert!(d.oread.is_none() && d.nread.is_none());
    assert_eq!(d.get_i64("a"), None);
    assert_eq!(d.get_string("a"), None);
    assert_eq!(d.get_bool("a"), None);
    assert_eq!(d.get_bin("a"), None);
    assert_eq!(d.to_json(), None);
}

#[test]
fn empty_base_ignores_update() {
    let pair = SmDtonPair::new(SmDtonBuffer::new(), map_of(&[("a", 1)]));
    let d = SmDton::new_from_pair(&pair);
    assert_eq!(d.get_i64("a"), None);
    let pair = SmDtonPair::new(map_of(&[("a", 1)]), SmDtonBuffer::new());
    let d = SmDton::new_from_pair(&pair);
    assert_eq!(d.get_i64("a"), Some(1));
    assert!(d.nread.is_none());
}

#[test]
fn update_and_promote() {
    let base = map_of(&[("a", 1), ("b", 2)]);
    let upd = map_of(&[("b", 9)]);
    let mut d = SmDton::new_from_buffer(&base);
    d.update(upd.get_buffer());
    assert_eq!(d.get_i64("b"), Some(9));
    assert_eq!(d.get_i64("a"), Some(1));

    let other = map_of(&[("a", 7)]);
    let od = SmDton::new_from_buffer(&other);
    let mut d2 = SmDton::new_from_buffer(&base);
    d2.update_by_dton(&od);
    assert_eq!(d2.get_i64("a"), Some(7));
    let c = d2.clone();
    assert_eq!(c.get_i64("a"), Some(7));
    assert_eq!(c.get_i64("b"), Some(2));

    let empty = SmDtonBuffer::new();
    let mut none = SmDton::new_from_buffer(&empty);
    none.update_by_dton(&od);
    assert!(none.nread.is_none());
}

#[test]
fn facade_strings_and_blobs() {
    let mut m = SmDtonMap::new();
    m.add_string("name", "base");
    m.add_bin("blob", &[1, 2, 3]);
    m.add_bool("flag", false);
    let base = m.build();
    let mut u = SmDtonMap::new();
    u.add_string("name", "patched");
    let upd = u.build();
    let pair = SmDtonPair::new(base, upd);
    let d = SmDton::new_from_pair(&pair);
    assert_eq!(d.get_string("name"), Some(s("patched")));
    assert_eq!(d.get_bin("blob"), Some(&[1u8, 2, 3][..]));
    assert_eq!(d.get_bool("flag"), Some(false));
    assert_eq!(d.get_u8("flag"), None);
}

#[test]
fn merge_is_shallow() {
    let base = JsonNode::Object(vec![
        (s("a"), JsonNode::Object(vec![(s("x"), JsonNode::Int(1)), (s("y"), JsonNode::Int(2))])),
        (s("k"), JsonNode::Bool(true)),
    ]);
    let upd = JsonNode::Object(vec![(s("a"), JsonNode::Object(vec![(s("x"), JsonNode::Int(5))]))]);
    assert_eq!(
        merge_top(base, upd),
        JsonNode::Object(vec![
            (s("a"), JsonNode::Object(vec![(s("x"), JsonNode::Int(5))])),
            (s("k"), JsonNode::Bool(true)),
        ])
    );
}

#[test]
fn merge_edge_cases() {
    let arr = || JsonNode::Array(vec![JsonNode::Int(1)]);
    let obj = || JsonNode::Object(vec![(s("a"), JsonNode::Int(2))]);
    assert_eq!(merge_top(arr(), obj()), obj());
    assert_eq!(merge_top(obj(), arr()), obj());
    assert_eq!(merge_top(arr(), JsonNode::Object(vec![])), arr());
    assert_eq!(overlay_json(None, None), None);
    assert_eq!(overlay_json(Some(arr()), None), Some(arr()));
    assert_eq!(overlay_json(None, Some(obj())), Some(obj()));
}

#[test]
fn set_field_replaces_in_place() {
    let mut f = vec![(s("a"), JsonNode::Int(1)), (s("b"), JsonNode::Int(2))];
    set_field(&mut f, s("a"), JsonNode::Int(9));
    assert_eq!(f, vec![(s("a"), JsonNode::Int(9)), (s("b"), JsonNode::Int(2))]);
    set_field(&mut f, s("c"), JsonNode::Null);
    assert_eq!(f.len(), 3);
    assert_eq!(f[2], (s("c"), JsonNode::Null));
}

#[test]
fn overlay_of_json_built_buffers() {
    let obj = |f: &[(&str, i64)]| {
        JsonNode::Object(f.iter().map(|(k, v)| (s(k), JsonNode::Int(*v))).collect())
    };
    let base = SmDtonBuilder::new_from_json(&obj(&[("a", 1), ("b", 2)])).unwrap().build();
    let upd = SmDtonBuilder::new_from_json(&obj(&[("b", 3), ("c", 4)])).unwrap().build();
    let pair = SmDtonPair::new(base, upd);
    let d = SmDton::new_from_pair(&pair);
    assert_eq!(d.to_json(), Some(obj(&[("a", 1), ("b", 3), ("c", 4)])));
}
