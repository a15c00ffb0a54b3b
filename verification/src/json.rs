//! JSON documents as plain values: reading and writing them through
//! `serde_json`, and finding the value at a path of pointer tokens.
use vstd::prelude::*;
use crate::text::{chars_of, parse_usize, parsed_usize, starts_with, starts_with_str, str_eq, string_of};

verus! {

/// A JSON document as plain values: object members keep their order.
#[derive(Debug)]
pub enum JsonValue {
    Null,
    Bool(bool),
    /// A number, in the text it is written with.
    Number(String),
    Str(String),
    Array(Vec<JsonValue>),
    Object(Vec<(String, JsonValue)>),
}

#[verifier::external_type_specification]
#[verifier::external_body]
pub struct ExSerdeJsonValue(serde_json::Value);

/// The document `serde_json::from_str::<serde_json::Value>` reads from
/// `text`, moved into a `JsonValue`; `None` where the text is not JSON.
pub uninterp spec fn json_document(text: Seq<char>) -> Option<JsonValue>;

/// The compact text `serde_json::to_string` writes for the document, or
/// `None` where it fails.
pub uninterp spec fn json_text(value: JsonValue) -> Option<Seq<char>>;

/// Moves a `serde_json::Value` into a `JsonValue`, variant for variant; a
/// number keeps the text `serde_json` writes for it, object members keep
/// the order the map gives them.  Nothing is stated of the result.
#[verifier::external_body]
fn json_value_from_serde(value: serde_json::Value) -> JsonValue {
    match value {
        serde_json::Value::Null => JsonValue::Null,
        serde_json::Value::Bool(b) => JsonValue::Bool(b),
        serde_json::Value::Number(n) => JsonValue::Number(n.to_string()),
        serde_json::Value::String(t) => JsonValue::Str(t),
        serde_json::Value::Array(items) => JsonValue::Array(items.into_iter().map(json_value_from_serde).collect()),
        serde_json::Value::Object(map) => JsonValue::Object(
            map.into_iter().map(|(k, v)| (k, json_value_from_serde(v))).collect(),
        ),
    }
}

/// Moves a `JsonValue` into a `serde_json::Value`, variant for variant; a
/// number whose text `serde_json::Number` does not read becomes a string.
/// Nothing is stated of the result.
#[verifier::external_body]
fn json_value_to_serde(value: JsonValue) -> serde_json::Value {
    match value {
        JsonValue::Null => serde_json::Value::Null,
        JsonValue::Bool(b) => serde_json::Value::Bool(b),
        JsonValue::Number(n) => match n.parse::<serde_json::Number>() {
            Ok(num) => serde_json::Value::Number(num),
            Err(_) => serde_json::Value::String(n),
        },
        JsonValue::Str(t) => serde_json::Value::String(t),
        JsonValue::Array(items) => serde_json::Value::Array(items.into_iter().map(json_value_to_serde).collect()),
        JsonValue::Object(members) => serde_json::Value::Object(
            members.into_iter().map(|(k, v)| (k, json_value_to_serde(v))).collect(),
        ),
    }
}

/// `serde_json::from_str::<serde_json::Value>`: the document in `text`,
/// or `None` where it is not JSON.
#[verifier::external_body]
pub(crate) fn parse_json_document(text: &str) -> (r: Option<JsonValue>)
    ensures
        r == json_document(text@),
{
    match serde_json::from_str::<serde_json::Value>(text) {
        Ok(value) => Some(json_value_from_serde(value)),
        Err(_) => None,
    }
}

/// `serde_json::to_string` of the document.
#[verifier::external_body]
pub(crate) fn write_json_document(value: JsonValue) -> (r: Option<String>)
    ensures
        match r {
            Some(t) => json_text(value) == Some(t@),
            None => json_text(value) is None,
        },
{
    serde_json::to_string(&json_value_to_serde(value)).ok()
}

// ------------------------------------------------------------------
// Finding values
// ------------------------------------------------------------------
/// The value of the first member named `key`.
pub open spec fn member(members: Seq<(String, JsonValue)>, key: Seq<char>) -> Option<JsonValue>
    decreases members.len(),
{
    if members.len() == 0 {
        None
    } else if members[0].0@ == key {
        Some(members[0].1)
    } else {
        member(members.drop_first(), key)
    }
}

/// The array position a pointer token names: a decimal number without a
/// sign or a leading zero.
pub open spec fn index_token(token: Seq<char>) -> Option<usize> {
    if starts_with(token, "+"@) || (starts_with(token, "0"@) && token.len() != 1) {
        None
    } else {
        parsed_usize(token)
    }
}

/// One step of a JSON pointer (RFC 6901): an object's member, an array's
/// element.
pub open spec fn step(v: JsonValue, token: Seq<char>) -> Option<JsonValue> {
    match v {
        JsonValue::Object(ms) => member(ms@, token),
        JsonValue::Array(items) => match index_token(token) {
            Some(i) => if i < items@.len() {
                Some(items@[i as int])
            } else {
                None
            },
            None => None,
        },
        _ => None,
    }
}

/// The value reached by following the (unescaped) pointer tokens.
pub open spec fn value_at(v: JsonValue, tokens: Seq<Seq<char>>) -> Option<JsonValue>
    decreases tokens.len(),
{
    if tokens.len() == 0 {
        Some(v)
    } else {
        match step(v, tokens[0]) {
            Some(w) => value_at(w, tokens.drop_first()),
            None => None,
        }
    }
}

/// The string the JSON text `text` holds at the pointer tokens, if it is
/// JSON and holds a string there.
pub open spec fn text_at(text: Seq<char>, tokens: Seq<Seq<char>>) -> Option<Seq<char>> {
    match json_document(text) {
        Some(doc) => match value_at(doc, tokens) {
            Some(JsonValue::Str(s)) => Some(s@),
            _ => None,
        },
        None => None,
    }
}

pub open spec fn token_views(tokens: Seq<&str>) -> Seq<Seq<char>> {
    tokens.map_values(|t: &str| t@)
}

fn member_exec<'a>(members: &'a Vec<(String, JsonValue)>, key: &str) -> (r: Option<&'a JsonValue>)
    ensures
        match r {
            Some(v) => member(members@, key@) == Some(*v),
            None => member(members@, key@) is None,
        },
{
    let ghost s = members@;
    let mut i: usize = 0;
    assert(s.skip(0) =~= s);
    while i < members.len()
        invariant
            i <= s.len(),
            s == members@,
            member(s.skip(i as int), key@) == member(s, key@),
        decreases s.len() - i,
    {
        let ghost rest = s.skip(i as int);
        assert(rest[0] == s[i as int]);
        assert(rest.drop_first() =~= s.skip(i + 1));
        if str_eq(members[i].0.as_str(), key) {
            return Some(&members[i].1);
        }
        i = i + 1;
    }
    assert(s.skip(i as int) =~= Seq::<(String, JsonValue)>::empty());
    None
}

fn index_token_exec(token: &str) -> (r: Option<usize>)
    ensures
        r == index_token(token@),
{
    let t = chars_of(token);
    if starts_with_str(&t, "+") || (starts_with_str(&t, "0") && t.len() != 1) {
        None
    } else {
        parse_usize(&t)
    }
}

fn step_exec<'a>(v: &'a JsonValue, token: &str) -> (r: Option<&'a JsonValue>)
    ensures
        match r {
            Some(w) => step(*v, token@) == Some(*w),
            None => step(*v, token@) is None,
        },
{
    match v {
        JsonValue::Object(ms) => member_exec(ms, token),
        JsonValue::Array(items) => match index_token_exec(token) {
            Some(i) => if i < items.len() {
                Some(&items[i])
            } else {
                None
            },
            None => None,
        },
        _ => None,
    }
}

/// The string at the pointer tokens of the document in `text`.
pub fn string_at(text: &str, tokens: &[&str]) -> (r: Option<String>)
    ensures
        match r {
            Some(s) => text_at(text@, token_views(tokens@)) == Some(s@),
            None => text_at(text@, token_views(tokens@)) is None,
        },
{
    let doc = parse_json_document(text);
    match &doc {
        Some(root) => {
            let ghost ts = token_views(tokens@);
            let mut cur: &JsonValue = root;
            let mut i: usize = 0;
            assert(ts.skip(0) =~= ts);
            while i < tokens.len()
                invariant
                    i <= tokens@.len(),
                    ts == token_views(tokens@),
                    ts.len() == tokens@.len(),
                    value_at(*root, ts) == value_at(*cur, ts.skip(i as int)),
                    json_document(text@) == Some(*root),
                decreases tokens@.len() - i,
            {
                let ghost rest = ts.skip(i as int);
                assert(rest[0] == tokens@[i as int]@);
                assert(rest.drop_first() =~= ts.skip(i + 1));
                match step_exec(cur, tokens[i]) {
                    Some(w) => {
                        cur = w;
                    },
                    None => {
                        assert(rest.len() > 0);
                        return None;
                    },
                }
                i = i + 1;
            }
            assert(ts.skip(i as int) =~= Seq::<Seq<char>>::empty());
            match cur {
                JsonValue::Str(s) => Some(crate::normalize::lit_string(s.as_str())),
                _ => None,
            }
        },
        None => None,
    }
}

/// `Value::get` with a key: the member of an object.
pub open spec fn get(v: JsonValue, key: Seq<char>) -> Option<JsonValue> {
    match v {
        JsonValue::Object(ms) => member(ms@, key),
        _ => None,
    }
}

/// The first element of an array.
pub open spec fn first_item(v: JsonValue) -> Option<JsonValue> {
    match v {
        JsonValue::Array(items) => if items@.len() > 0 {
            Some(items@[0])
        } else {
            None
        },
        _ => None,
    }
}

/// `Value::as_str`: the text of a string.
pub open spec fn str_of(v: JsonValue) -> Option<Seq<char>> {
    match v {
        JsonValue::Str(s) => Some(s@),
        _ => None,
    }
}

pub fn get_exec<'a>(v: &'a JsonValue, key: &str) -> (r: Option<&'a JsonValue>)
    ensures
        match r {
            Some(w) => get(*v, key@) == Some(*w),
            None => get(*v, key@) is None,
        },
{
    match v {
        JsonValue::Object(ms) => member_exec(ms, key),
        _ => None,
    }
}

pub fn first_item_exec(v: &JsonValue) -> (r: Option<&JsonValue>)
    ensures
        match r {
            Some(w) => first_item(*v) == Some(*w),
            None => first_item(*v) is None,
        },
{
    match v {
        JsonValue::Array(items) => if items.len() > 0 {
            Some(&items[0])
        } else {
            None
        },
        _ => None,
    }
}

pub fn str_of_exec(v: &JsonValue) -> (r: Option<String>)
    ensures
        match r {
            Some(s) => str_of(*v) == Some(s@),
            None => str_of(*v) is None,
        },
{
    match v {
        JsonValue::Str(s) => Some(crate::normalize::lit_string(s.as_str())),
        _ => None,
    }
}

} // verus!
