//! Reading JSON documents with `serde_json`. A parsed document is a
//! `serde_json::Value`, opaque to the verifier; `json_contents` names what a
//! value holds as a `JsonModel`, and each accessor below states, over that
//! model, what `serde_json` documents it to return.

use vstd::prelude::*;

verus! {

#[verifier::external_type_specification]
#[verifier::external_body]
pub struct ExJsonValue(serde_json::Value);

/// What a JSON value holds. A number is kept as what `as_i64` and `as_u64`
/// give for it.
pub enum JsonModel {
    Null,
    Bool(bool),
    Number(Option<i64>, Option<u64>),
    Str(Seq<char>),
    Array(Seq<JsonModel>),
    Object(Map<Seq<char>, JsonModel>),
}

/// The contents of a parsed JSON value.
pub uninterp spec fn json_contents(v: serde_json::Value) -> JsonModel;

/// The document `serde_json::from_slice::<Value>` reads from these bytes, or
/// `None` where it reports an error.
pub uninterp spec fn json_text(data: Seq<u8>) -> Option<JsonModel>;

/// `Value::get(key)` on a model: the member `key` of an object.
pub open spec fn json_get(v: JsonModel, key: Seq<char>) -> Option<JsonModel> {
    match v {
        JsonModel::Object(m) => if m.contains_key(key) {
            Some(m[key])
        } else {
            None
        },
        _ => None,
    }
}

/// `Value::as_str` on a model.
pub open spec fn json_str(v: JsonModel) -> Option<Seq<char>> {
    match v {
        JsonModel::Str(s) => Some(s),
        _ => None,
    }
}

/// `Value::as_array` on a model.
pub open spec fn json_array(v: JsonModel) -> Option<Seq<JsonModel>> {
    match v {
        JsonModel::Array(items) => Some(items),
        _ => None,
    }
}

/// `Value::as_i64` on a model.
pub open spec fn json_i64(v: JsonModel) -> Option<i64> {
    match v {
        JsonModel::Number(i, _) => i,
        _ => None,
    }
}

/// `Value::as_u64` on a model.
pub open spec fn json_u64(v: JsonModel) -> Option<u64> {
    match v {
        JsonModel::Number(_, u) => u,
        _ => None,
    }
}

/// Calls `serde_json::from_slice::<serde_json::Value>`: `None` where it reports
/// an error, else the document, whose contents are `json_text(data)`.
#[verifier::external_body]
pub(crate) fn parse_json(data: &[u8]) -> (r: Option<serde_json::Value>)
    ensures
        r is Some <==> json_text(data@) is Some,
        r matches Some(v) ==> Some(json_contents(v)) == json_text(data@),
{
    serde_json::from_slice::<serde_json::Value>(data).ok()
}

/// Calls `Value::get` with a string key: the member `key` when `v` is an object
/// that has it, else `None`.
#[verifier::external_body]
pub(crate) fn get<'a>(v: &'a serde_json::Value, key: &str) -> (r: Option<&'a serde_json::Value>)
    ensures
        r is Some <==> json_get(json_contents(*v), key@) is Some,
        r matches Some(m) ==> Some(json_contents(*m)) == json_get(json_contents(*v), key@),
{
    v.get(key)
}

/// Calls `Value::as_str`: the text when `v` is a string, else `None`.
#[verifier::external_body]
pub(crate) fn as_str<'a>(v: &'a serde_json::Value) -> (r: Option<&'a str>)
    ensures
        r is Some <==> json_str(json_contents(*v)) is Some,
        r matches Some(s) ==> Some(s@) == json_str(json_contents(*v)),
{
    v.as_str()
}

/// Calls `Value::as_array`: the elements when `v` is an array, else `None`.
#[verifier::external_body]
pub(crate) fn as_array<'a>(v: &'a serde_json::Value) -> (r: Option<&'a Vec<serde_json::Value>>)
    ensures
        r is Some <==> json_array(json_contents(*v)) is Some,
        r matches Some(a) ==> json_array(json_contents(*v)) == Some(
            a@.map_values(|e: serde_json::Value| json_contents(e)),
        ),
{
    v.as_array()
}

/// Calls `Value::as_i64`: the number when `v` is an integer that fits `i64`.
#[verifier::external_body]
pub(crate) fn as_i64(v: &serde_json::Value) -> (r: Option<i64>)
    ensures
        r == json_i64(json_contents(*v)),
{
    v.as_i64()
}

/// Calls `Value::as_u64`: the number when `v` is an integer that fits `u64`.
#[verifier::external_body]
pub(crate) fn as_u64(v: &serde_json::Value) -> (r: Option<u64>)
    ensures
        r == json_u64(json_contents(*v)),
{
    v.as_u64()
}

} // verus!
