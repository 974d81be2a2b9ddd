//! A plain model of JSON documents, filled by `serde_json`, and lookups on it.
use crate::text::{chars_eq, chars_of};
use vstd::prelude::*;

verus! {

/// A JSON value. Numbers keep their decimal text; objects keep their members in the
/// order `serde_json::Map` yields them.
#[derive(Debug)]
pub enum JsonValue {
    Null,
    Bool(bool),
    Number(String),
    Text(String),
    Array(Vec<JsonValue>),
    Object(Vec<(String, JsonValue)>),
}

#[verifier::external_type_specification]
#[verifier::external_body]
pub struct ExSerdeJsonValue(serde_json::Value);

/// What `serde_json::from_str::<serde_json::Value>` gives for a text: the parsed value, or
/// the text of the parse error.
pub uninterp spec fn serde_json_from_str(raw: Seq<char>) -> Result<JsonValue, Seq<char>>;

/// Turns a `serde_json::Value` into a `JsonValue`, one variant to the same variant.
#[verifier::external_body]
fn json_from_serde(v: serde_json::Value) -> JsonValue {
    match v {
        serde_json::Value::Null => JsonValue::Null,
        serde_json::Value::Bool(b) => JsonValue::Bool(b),
        serde_json::Value::Number(n) => JsonValue::Number(n.to_string()),
        serde_json::Value::String(s) => JsonValue::Text(s),
        serde_json::Value::Array(a) => JsonValue::Array(a.into_iter().map(json_from_serde).collect()),
        serde_json::Value::Object(o) => JsonValue::Object(
            o.into_iter().map(|(k, x)| (k, json_from_serde(x))).collect(),
        ),
    }
}

/// `serde_json::from_str::<serde_json::Value>`: the contract names the parse result of
/// the text and says nothing more of it.
#[verifier::external_body]
pub(crate) fn parse_json(raw: &str) -> (r: Result<JsonValue, String>)
    ensures
        match r {
            Ok(v) => serde_json_from_str(raw@) == Ok::<JsonValue, Seq<char>>(v),
            Err(e) => serde_json_from_str(raw@) == Err::<JsonValue, Seq<char>>(e@),
        },
{
    match serde_json::from_str::<serde_json::Value>(raw) {
        Ok(v) => Ok(json_from_serde(v)),
        Err(e) => Err(e.to_string()),
    }
}

/// The JSON text `serde_json` writes for an object whose members are the texts of
/// `pairs` (an object made by inserting them in order into a `serde_json::Map`).
pub uninterp spec fn json_object_text(pairs: Seq<(Seq<char>, Seq<char>)>) -> Seq<char>;

/// The members of a list of pairs of strings, by their views.
pub open spec fn string_pairs_view(v: Seq<(String, String)>) -> Seq<(Seq<char>, Seq<char>)> {
    v.map_values(|p: (String, String)| (p.0@, p.1@))
}

/// Builds a `serde_json::Map` of the pairs, each value a JSON string, and writes the
/// object as text with `Value::to_string`. The contract names the text; of an empty
/// object it states `{}`, which is what serde_json writes for one.
#[verifier::external_body]
pub(crate) fn object_text(pairs: &Vec<(String, String)>) -> (r: String)
    ensures
        r@ == json_object_text(string_pairs_view(pairs@)),
        pairs@.len() == 0 ==> r@ == "{}"@,
{
    let mut map = serde_json::Map::new();
    for (k, v) in pairs {
        map.insert(k.clone(), serde_json::Value::String(v.clone()));
    }
    serde_json::Value::Object(map).to_string()
}

/// The value of the first member of `fields`, from position `i` on, named `key`.
pub open spec fn member_from(fields: Seq<(String, JsonValue)>, key: Seq<char>, i: int) -> Option<
    JsonValue,
>
    decreases fields.len() - i,
{
    if i < 0 || i >= fields.len() {
        None
    } else if fields[i].0@ == key {
        Some(fields[i].1)
    } else {
        member_from(fields, key, i + 1)
    }
}

/// `serde_json::Value::get` with a text key: the member named `key` of an object.
pub open spec fn json_get(v: JsonValue, key: Seq<char>) -> Option<JsonValue> {
    match v {
        JsonValue::Object(fields) => member_from(fields@, key, 0),
        _ => None,
    }
}

/// `Value::as_str` of a looked-up value.
pub open spec fn json_text(v: Option<JsonValue>) -> Option<Seq<char>> {
    match v {
        Some(JsonValue::Text(s)) => Some(s@),
        _ => None,
    }
}

/// The member named `key` of the members `fields`.
pub fn member<'a>(fields: &'a Vec<(String, JsonValue)>, key: &str) -> (r: Option<&'a JsonValue>)
    ensures
        match r {
            Some(x) => member_from(fields@, key@, 0) == Some(*x),
            None => member_from(fields@, key@, 0) is None,
        },
{
    let k = chars_of(key);
    let mut i: usize = 0;
    while i < fields.len()
        invariant
            i <= fields.len(),
            k@ == key@,
            member_from(fields@, key@, 0) == member_from(fields@, key@, i as int),
        decreases fields.len() - i,
    {
        let name = chars_of(fields[i].0.as_str());
        if chars_eq(&name, &k) {
            return Some(&fields[i].1);
        }
        i = i + 1;
    }
    None
}

/// The member named `key` of `v`, when `v` is an object.
pub fn get<'a>(v: &'a JsonValue, key: &str) -> (r: Option<&'a JsonValue>)
    ensures
        match r {
            Some(x) => json_get(*v, key@) == Some(*x),
            None => json_get(*v, key@) is None,
        },
{
    match v {
        JsonValue::Object(fields) => member(fields, key),
        _ => None,
    }
}

/// The text of `v`, when `v` is a JSON string.
pub fn text_of(v: Option<&JsonValue>) -> (r: Option<&String>)
    ensures
        match r {
            Some(s) => json_text(match v {
                Some(x) => Some(*x),
                None => None,
            }) == Some(s@),
            None => json_text(match v {
                Some(x) => Some(*x),
                None => None,
            }) is None,
        },
{
    match v {
        Some(JsonValue::Text(s)) => Some(s),
        _ => None,
    }
}

} // verus!
