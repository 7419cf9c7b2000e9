//! The configuration tree and its compact JSON text.

use devkit_poe_complete::json::{Json, json_text, lookup};

fn obj(pairs: Vec<(&str, Json)>) -> Json {
    Json::Object(pairs.into_iter().map(|(k, v)| (k.to_string(), v)).collect())
}

#[test]
fn scalars_are_written_the_way_serde_json_writes_them() {
    assert_eq!(json_text(&Json::Null), "null");
    assert_eq!(json_text(&Json::Bool(true)), "true");
    assert_eq!(json_text(&Json::Bool(false)), "false");
    assert_eq!(json_text(&Json::Number("1.5".into())), "1.5");
}

#[test]
fn strings_are_quoted_and_escaped() {
    assert_eq!(json_text(&Json::Str("a\"b\\c\n".into())), "\"a\\\"b\\\\c\\n\"");
    assert_eq!(json_text(&Json::Str(String::new())), "\"\"");
}

#[test]
fn containers_are_compact_and_keep_their_order() {
    let v = obj(vec![
        ("z", Json::Array(vec![Json::Number("1".into()), Json::Null])),
        ("a", obj(vec![])),
        ("m", Json::Array(vec![])),
    ]);
    assert_eq!(json_text(&v), "{\"z\":[1,null],\"a\":{},\"m\":[]}");
}

#[test]
fn lookup_finds_a_member_of_a_table_only() {
    let v = obj(vec![("a", Json::Bool(true)), ("b", Json::Null)]);
    assert!(matches!(lookup(&v, "a"), Some(Json::Bool(true))));
    assert!(matches!(lookup(&v, "b"), Some(Json::Null)));
    assert!(lookup(&v, "c").is_none());
    assert!(lookup(&Json::Array(vec![]), "a").is_none());
}

#[test]
fn control_characters_are_escaped_and_others_kept() {
    assert_eq!(json_text(&Json::Str("\u{1}\u{8}\u{c}\r\t\u{1f}\u{7f}é".into())), "\"\\u0001\\b\\f\\r\\t\\u001f\u{7f}é\"");
}
