//! The configuration values the resolver reads: one tree for TOML documents and for the
//! JSON an `include_script` prints, so both take one path through the task logic.
//!
//! Tables keep their keys in definition order (which is the order poe lists tasks in),
//! and a key occurs at most once per table.

use vstd::prelude::*;

use crate::text::{owned, push_char, str_eq};

verus! {

/// A JSON value. Numbers are held as the text JSON writes for them.
#[derive(Debug)]
pub enum Json {
    Null,
    Bool(bool),
    Number(String),
    Str(String),
    Array(Vec<Json>),
    Object(Vec<(String, Json)>),
}

/// The mathematical content of a [`Json`] value.
pub ghost enum JsonView {
    Null,
    Bool(bool),
    Number(Seq<char>),
    Str(Seq<char>),
    Array(Seq<JsonView>),
    Object(Seq<(Seq<char>, JsonView)>),
}

/// The view of one value.
pub open spec fn json_view(j: Json) -> JsonView
    decreases j,
{
    match j {
        Json::Null => JsonView::Null,
        Json::Bool(b) => JsonView::Bool(b),
        Json::Number(n) => JsonView::Number(n@),
        Json::Str(s) => JsonView::Str(s@),
        Json::Array(items) => JsonView::Array(seq_view(items@)),
        Json::Object(pairs) => JsonView::Object(pairs_view(pairs@)),
    }
}

/// The views of a list of values.
pub open spec fn seq_view(s: Seq<Json>) -> Seq<JsonView>
    decreases s,
{
    if s.len() == 0 {
        seq![]
    } else {
        seq_view(s.drop_last()).push(json_view(s.last()))
    }
}

/// The views of a list of key/value pairs.
pub open spec fn pairs_view(s: Seq<(String, Json)>) -> Seq<(Seq<char>, JsonView)>
    decreases s,
{
    if s.len() == 0 {
        seq![]
    } else {
        pairs_view(s.drop_last()).push((s.last().0@, json_view(s.last().1)))
    }
}

impl View for Json {
    type V = JsonView;

    open spec fn view(&self) -> JsonView {
        json_view(*self)
    }
}

/// The length and the elements of [`seq_view`].
pub proof fn lemma_seq_view(s: Seq<Json>)
    ensures
        seq_view(s).len() == s.len(),
        forall|i: int| 0 <= i < s.len() ==> #[trigger] seq_view(s)[i] == json_view(s[i]),
    decreases s.len(),
{
    if s.len() > 0 {
        lemma_seq_view(s.drop_last());
        assert forall|i: int| 0 <= i < s.len() implies #[trigger] seq_view(s)[i] == json_view(s[i]) by {
            if i < s.len() - 1 {
                assert(s.drop_last()[i] == s[i]);
            }
        }
    }
}

/// The length and the elements of [`pairs_view`].
pub proof fn lemma_pairs_view(s: Seq<(String, Json)>)
    ensures
        pairs_view(s).len() == s.len(),
        forall|i: int|
            0 <= i < s.len() ==> #[trigger] pairs_view(s)[i] == (s[i].0@, json_view(s[i].1)),
    decreases s.len(),
{
    if s.len() > 0 {
        lemma_pairs_view(s.drop_last());
        assert forall|i: int| 0 <= i < s.len() implies #[trigger] pairs_view(s)[i] == (
            s[i].0@,
            json_view(s[i].1),
        ) by {
            if i < s.len() - 1 {
                assert(s.drop_last()[i] == s[i]);
            }
        }
    }
}

/// The value of the first pair keyed `key`, from index `i` on.
pub open spec fn pair_lookup(pairs: Seq<(Seq<char>, JsonView)>, key: Seq<char>, i: int) -> Option<
    JsonView,
>
    decreases pairs.len() - i,
{
    if i < 0 || i >= pairs.len() {
        None
    } else if pairs[i].0 == key {
        Some(pairs[i].1)
    } else {
        pair_lookup(pairs, key, i + 1)
    }
}

/// The member `key` of a table; `None` for a missing key and for anything but a table.
pub open spec fn jget(v: JsonView, key: Seq<char>) -> Option<JsonView> {
    match v {
        JsonView::Object(pairs) => pair_lookup(pairs, key, 0),
        _ => None,
    }
}

/// The member `key` of an optional table.
pub open spec fn jget_opt(v: Option<JsonView>, key: Seq<char>) -> Option<JsonView> {
    match v {
        Some(x) => jget(x, key),
        None => None,
    }
}

/// The string inside, if `v` is a string.
pub open spec fn as_str(v: Option<JsonView>) -> Option<Seq<char>> {
    match v {
        Some(JsonView::Str(s)) => Some(s),
        _ => None,
    }
}

/// The view of an optional reference to a value.
pub open spec fn opt_view(o: Option<&Json>) -> Option<JsonView> {
    match o {
        Some(j) => Some(j@),
        None => None,
    }
}

/// The member `key` of `j`, when `j` is a table that has it.
pub fn lookup<'a>(j: &'a Json, key: &str) -> (r: Option<&'a Json>)
    ensures
        opt_view(r) == jget(j@, key@),
{
    match j {
        Json::Object(pairs) => {
            proof {
                lemma_pairs_view(pairs@);
            }
            let ghost pv = pairs_view(pairs@);
            let mut i: usize = 0;
            while i < pairs.len()
                invariant
                    i <= pairs.len(),
                    pv == pairs_view(pairs@),
                    j@ == JsonView::Object(pv),
                    pv.len() == pairs@.len(),
                    forall|k: int|
                        0 <= k < pairs@.len() ==> #[trigger] pv[k] == (
                            pairs@[k].0@,
                            json_view(pairs@[k].1),
                        ),
                    pair_lookup(pv, key@, 0) == pair_lookup(pv, key@, i as int),
                decreases pairs.len() - i,
            {
                assert(pv[i as int] == (pairs@[i as int].0@, json_view(pairs@[i as int].1)));
                if str_eq(pairs[i].0.as_str(), key) {
                    return Some(&pairs[i].1);
                }
                i += 1;
            }
            None
        },
        _ => None,
    }
}

/// A copy of `j`.
pub fn clone_json(j: &Json) -> (r: Json)
    ensures
        r@ == j@,
    decreases j,
{
    match j {
        Json::Null => Json::Null,
        Json::Bool(b) => Json::Bool(*b),
        Json::Number(n) => Json::Number(n.clone()),
        Json::Str(s) => Json::Str(s.clone()),
        Json::Array(items) => {
            let mut out: Vec<Json> = Vec::new();
            let mut i: usize = 0;
            while i < items.len()
                invariant
                    i <= items.len(),
                    seq_view(out@) == seq_view(items@.take(i as int)),
                    *j == Json::Array(*items),
                decreases items.len() - i,
            {
                assert(decreases_to!(*j => (*j)->Array_0));
                assert(decreases_to!(*items => items@));
                assert(decreases_to!(items@ => items@[i as int]));
                assert(decreases_to!(*j => items@[i as int]));
                let c = clone_json(&items[i]);
                let ghost before = out@;
                out.push(c);
                assert(out@.drop_last() =~= before);
                assert(items@.take(i + 1).drop_last() =~= items@.take(i as int));
                i += 1;
            }
            assert(items@.take(items@.len() as int) =~= items@);
            Json::Array(out)
        },
        Json::Object(pairs) => {
            let mut out: Vec<(String, Json)> = Vec::new();
            let mut i: usize = 0;
            while i < pairs.len()
                invariant
                    i <= pairs.len(),
                    pairs_view(out@) == pairs_view(pairs@.take(i as int)),
                    *j == Json::Object(*pairs),
                decreases pairs.len() - i,
            {
                assert(decreases_to!(*j => (*j)->Object_0));
                assert(decreases_to!(*pairs => pairs@));
                assert(decreases_to!(pairs@ => pairs@[i as int]));
                assert(decreases_to!(pairs@[i as int] => pairs@[i as int].1));
                assert(decreases_to!(*j => pairs@[i as int].1));
                let v = clone_json(&pairs[i].1);
                let k = pairs[i].0.clone();
                let ghost before = out@;
                out.push((k, v));
                assert(out@.drop_last() =~= before);
                assert(pairs@.take(i + 1).drop_last() =~= pairs@.take(i as int));
                i += 1;
            }
            assert(pairs@.take(pairs@.len() as int) =~= pairs@);
            Json::Object(out)
        },
    }
}

/// A lowercase hexadecimal digit.
pub open spec fn hex_digit(n: int) -> char {
    seq!['0', '1', '2', '3', '4', '5', '6', '7', '8', '9', 'a', 'b', 'c', 'd', 'e', 'f'][n]
}

/// How `serde_json` writes one character inside a string: `"` and `\` backslashed, the
/// control characters below U+0020 as `\b`, `\t`, `\n`, `\f`, `\r` or `\u00XX`, anything
/// else as it is.
pub open spec fn json_char_escape(c: char) -> Seq<char> {
    if c == '"' {
        seq!['\\', '"']
    } else if c == '\\' {
        seq!['\\', '\\']
    } else if c == '\u{08}' {
        seq!['\\', 'b']
    } else if c == '\t' {
        seq!['\\', 't']
    } else if c == '\n' {
        seq!['\\', 'n']
    } else if c == '\u{0C}' {
        seq!['\\', 'f']
    } else if c == '\r' {
        seq!['\\', 'r']
    } else if (c as int) < 0x20 {
        seq!['\\', 'u', '0', '0', hex_digit((c as int) / 16), hex_digit((c as int) % 16)]
    } else {
        seq![c]
    }
}

/// The characters of `s`, each escaped.
pub open spec fn json_escaped(s: Seq<char>) -> Seq<char>
    decreases s.len(),
{
    if s.len() == 0 {
        seq![]
    } else {
        json_escaped(s.drop_last()) + json_char_escape(s.last())
    }
}

/// The JSON string literal for `s`: quoted, with JSON's escapes.
pub open spec fn json_string_literal(s: Seq<char>) -> Seq<char> {
    seq!['"'] + json_escaped(s) + seq!['"']
}

/// Trusted: `serde_json::to_string` on a `str`, which writes the string quoted, escaping
/// by the table in `serde_json::ser` (`ESCAPE`) as [`json_char_escape`] states. Writing a
/// string never fails (serde_json reports errors only for maps with non-string keys and for
/// `Serialize` impls that fail), so the empty fallback is never taken.
#[verifier::external_body]
fn quote_json(s: &str) -> (r: String)
    ensures
        r@ == json_string_literal(s@),
{
    serde_json::to_string(s).unwrap_or_default()
}

/// The compact JSON text of `v`, as `serde_json` writes a value: no whitespace, members in
/// table order.
pub open spec fn compact(v: JsonView) -> Seq<char>
    decreases v,
{
    match v {
        JsonView::Null => "null"@,
        JsonView::Bool(b) => if b {
            "true"@
        } else {
            "false"@
        },
        JsonView::Number(n) => n,
        JsonView::Str(s) => json_string_literal(s),
        JsonView::Array(items) => seq!['['] + compact_items(items) + seq![']'],
        JsonView::Object(pairs) => seq!['{'] + compact_pairs(pairs) + seq!['}'],
    }
}

/// The elements of an array, comma-separated.
pub open spec fn compact_items(items: Seq<JsonView>) -> Seq<char>
    decreases items,
{
    if items.len() == 0 {
        seq![]
    } else if items.len() == 1 {
        compact(items[0])
    } else {
        compact_items(items.drop_last()) + seq![','] + compact(items.last())
    }
}

/// The members of a table, comma-separated `"key":value`.
pub open spec fn compact_pairs(pairs: Seq<(Seq<char>, JsonView)>) -> Seq<char>
    decreases pairs,
{
    if pairs.len() == 0 {
        seq![]
    } else if pairs.len() == 1 {
        json_string_literal(pairs[0].0) + seq![':'] + compact(pairs[0].1)
    } else {
        compact_pairs(pairs.drop_last()) + seq![','] + json_string_literal(pairs.last().0) + seq![
            ':',
        ] + compact(pairs.last().1)
    }
}

/// The compact JSON text of `j`.
pub fn json_text(j: &Json) -> (r: String)
    ensures
        r@ == compact(j@),
    decreases j,
{
    match j {
        Json::Null => String::from_str("null"),
        Json::Bool(b) => if *b {
            String::from_str("true")
        } else {
            String::from_str("false")
        },
        Json::Number(n) => n.clone(),
        Json::Str(s) => quote_json(s.as_str()),
        Json::Array(items) => {
            proof {
                lemma_seq_view(items@);
            }
            let ghost iv = seq_view(items@);
            let mut out = String::new();
            push_char(&mut out, '[');
            let mut i: usize = 0;
            while i < items.len()
                invariant
                    i <= items.len(),
                    *j == Json::Array(*items),
                    iv == seq_view(items@),
                    iv.len() == items@.len(),
                    forall|k: int| 0 <= k < items@.len() ==> #[trigger] iv[k] == json_view(items@[k]),
                    out@ == seq!['['] + compact_items(iv.take(i as int)),
                decreases items.len() - i,
            {
                assert(decreases_to!(*j => (*j)->Array_0));
                assert(decreases_to!(*items => items@));
                assert(decreases_to!(items@ => items@[i as int]));
                let t = json_text(&items[i]);
                if i > 0 {
                    push_char(&mut out, ',');
                }
                out.append(t.as_str());
                assert(iv.take(i + 1).drop_last() =~= iv.take(i as int));
                assert(iv.take(i + 1).last() == iv[i as int]);
                if i == 0 {
                    assert(iv.take(1)[0] == iv[0]);
                }
                assert(out@ =~= seq!['['] + compact_items(iv.take(i + 1)));
                i += 1;
            }
            push_char(&mut out, ']');
            assert(iv.take(items@.len() as int) =~= iv);
            out
        },
        Json::Object(pairs) => {
            proof {
                lemma_pairs_view(pairs@);
            }
            let ghost pv = pairs_view(pairs@);
            let mut out = String::new();
            push_char(&mut out, '{');
            let mut i: usize = 0;
            while i < pairs.len()
                invariant
                    i <= pairs.len(),
                    *j == Json::Object(*pairs),
                    pv == pairs_view(pairs@),
                    pv.len() == pairs@.len(),
                    forall|k: int|
                        0 <= k < pairs@.len() ==> #[trigger] pv[k] == (
                            pairs@[k].0@,
                            json_view(pairs@[k].1),
                        ),
                    out@ == seq!['{'] + compact_pairs(pv.take(i as int)),
                decreases pairs.len() - i,
            {
                assert(decreases_to!(*j => (*j)->Object_0));
                assert(decreases_to!(*pairs => pairs@));
                assert(decreases_to!(pairs@ => pairs@[i as int]));
                assert(decreases_to!(pairs@[i as int] => pairs@[i as int].1));
                let key = quote_json(pairs[i].0.as_str());
                let value = json_text(&pairs[i].1);
                if i > 0 {
                    push_char(&mut out, ',');
                }
                out.append(key.as_str());
                push_char(&mut out, ':');
                out.append(value.as_str());
                assert(pv.take(i + 1).drop_last() =~= pv.take(i as int));
                assert(pv.take(i + 1).last() == pv[i as int]);
                if i == 0 {
                    assert(pv.take(1)[0] == pv[0]);
                }
                assert(out@ =~= seq!['{'] + compact_pairs(pv.take(i + 1)));
                i += 1;
            }
            push_char(&mut out, '}');
            assert(pv.take(pairs@.len() as int) =~= pv);
            out
        },
    }
}

} // verus!
