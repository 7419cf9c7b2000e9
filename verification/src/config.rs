//! Configuration text parsed into the tree the resolver reads: TOML for `pyproject.toml`
//! and included files, JSON for what an `include_script` prints. The parsing is the outside
//! crates' (`toml_edit`, `serde_json`), and what they make of a text is named, not restated.

use vstd::prelude::*;

use serde_json::{Number as JsonNumber, Value as JsonValue};
use toml_edit::{Item as TomlItem, Value as TomlValue};

use crate::json::Json::{Null, Number};
use crate::json::{Json, JsonView};

verus! {

/// A TOML table, as `toml_edit` holds it.
#[verifier::external_type_specification]
#[verifier::external_body]
pub struct ExTomlTable(toml_edit::Table);

/// A TOML value, as `toml_edit` holds it.
#[verifier::external_type_specification]
#[verifier::external_body]
pub struct ExTomlValue(TomlValue);

/// A JSON value, as `serde_json` holds it.
#[verifier::external_type_specification]
#[verifier::external_body]
pub struct ExJsonValue(JsonValue);

/// The tree a TOML document's text holds, `None` when the text is not valid TOML: tables
/// keep their keys in document order, strings and booleans are themselves, integers and
/// floats are their JSON number text, and a date-time is its TOML text.
pub uninterp spec fn toml_tree(text: Seq<char>) -> Option<JsonView>;

/// The tree a JSON text holds, `None` when the text is not valid JSON; objects keep their
/// keys in document order.
pub uninterp spec fn json_tree(text: Seq<char>) -> Option<JsonView>;

/// Trusted: `toml_edit::DocumentMut::from_str` (through `str::parse`), the document
/// converted one for one into a [`Json`] tree; named by [`toml_tree`].
#[verifier::external_body]
pub(crate) fn parse_toml(text: &str) -> (r: Option<Json>)
    ensures
        match r {
            Some(j) => toml_tree(text@) == Some(j@),
            None => toml_tree(text@) is None,
        },
{
    match text.parse::<toml_edit::DocumentMut>() {
        Ok(doc) => Some(toml_table_json(doc.as_table())),
        Err(_) => None,
    }
}

/// Trusted conversion of a `toml_edit` table into a [`Json`] object, key by key in document
/// order. Nothing is stated of it on its own: its result reaches the library only through
/// [`parse_toml`], whose result is named.
#[verifier::external_body]
fn toml_table_json(t: &toml_edit::Table) -> Json {
    Json::Object(t.iter().map(|(k, item)| (k.to_string(), match item {
        TomlItem::None => Json::Null,
        TomlItem::Value(v) => toml_value_json(v),
        TomlItem::Table(t) => toml_table_json(t),
        TomlItem::ArrayOfTables(a) => Json::Array(a.iter().map(toml_table_json).collect()),
    })).collect())
}

/// Trusted conversion of a `toml_edit` value into a [`Json`] value; a float takes the
/// number text `serde_json` writes for it. Nothing is stated of it on its own, as for
/// [`toml_table_json`].
#[verifier::external_body]
fn toml_value_json(v: &TomlValue) -> Json {
    match v {
        TomlValue::String(s) => Json::Str(s.value().clone()),
        TomlValue::Integer(i) => Number(i.value().to_string()),
        TomlValue::Float(f) => JsonNumber::from_f64(*f.value()).map_or(Null, |n| Number(n.to_string())),
        TomlValue::Boolean(b) => Json::Bool(*b.value()),
        TomlValue::Datetime(d) => Json::Str(d.value().to_string()),
        TomlValue::Array(a) => Json::Array(a.iter().map(toml_value_json).collect()),
        TomlValue::InlineTable(t) => Json::Object(t.iter().map(|(k, v)| (k.to_string(), toml_value_json(v))).collect()),
    }
}

/// Trusted: `serde_json::from_str` into a `serde_json::Value` (objects in document order,
/// the `preserve_order` feature), converted one for one into a [`Json`] tree; named by
/// [`json_tree`].
#[verifier::external_body]
pub(crate) fn parse_json(text: &str) -> (r: Option<Json>)
    ensures
        match r {
            Some(j) => json_tree(text@) == Some(j@),
            None => json_tree(text@) is None,
        },
{
    match serde_json::from_str::<JsonValue>(text) {
        Ok(v) => Some(json_value_json(&v)),
        Err(_) => None,
    }
}

/// Trusted conversion of a `serde_json` value into a [`Json`] value; a number keeps the text
/// `serde_json` writes for it. Nothing is stated of it on its own: its result reaches the
/// library only through [`parse_json`], whose result is named.
#[verifier::external_body]
fn json_value_json(v: &JsonValue) -> Json {
    match v {
        JsonValue::Null => Json::Null,
        JsonValue::Bool(b) => Json::Bool(*b),
        JsonValue::Number(n) => Json::Number(n.to_string()),
        JsonValue::String(s) => Json::Str(s.clone()),
        JsonValue::Array(a) => Json::Array(a.iter().map(json_value_json).collect()),
        JsonValue::Object(o) => Json::Object(o.iter().map(|(k, v)| (k.clone(), json_value_json(v))).collect()),
    }
}

} // verus!
