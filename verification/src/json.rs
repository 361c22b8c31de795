//! JSON documents read through `serde_json`: the few accessors the
//! configuration loader uses, each stated over a model of the document.

use vstd::prelude::*;

use crate::order::texts;

verus! {

#[verifier::external_type_specification]
#[verifier::external_body]
pub struct ExJsonValue(serde_json::Value);

#[verifier::external_type_specification]
#[verifier::external_body]
#[verifier::reject_recursive_types(K)]
#[verifier::reject_recursive_types(V)]
pub struct ExJsonMap<K, V>(serde_json::Map<K, V>);

/// The mathematical shape of a JSON document. Numbers carry no payload:
/// nothing here reads them.
pub enum Json {
    Null,
    Bool(bool),
    Number,
    Str(Seq<char>),
    Array(Seq<Json>),
    /// Members in the map's iteration order; keys are distinct.
    Object(Seq<(Seq<char>, Json)>),
}

/// What `serde_json::from_str::<Value>` makes of a text, when it accepts it.
pub uninterp spec fn json_parsed(text: Seq<char>) -> Option<Json>;

/// The document a `serde_json::Value` holds.
pub uninterp spec fn json_model(v: serde_json::Value) -> Json;

/// The members a `serde_json::Map` holds, in iteration order.
pub uninterp spec fn json_members(m: serde_json::Map<String, serde_json::Value>) -> Seq<(Seq<char>, Json)>;

/// The value stored under `key` among `members`.
pub open spec fn member(members: Seq<(Seq<char>, Json)>, key: Seq<char>) -> Option<Json>
    decreases members.len(),
{
    if members.len() == 0 {
        None
    } else if members[0].0 == key {
        Some(members[0].1)
    } else {
        member(members.drop_first(), key)
    }
}

/// `serde_json::from_str::<Value>`: the parsed document, or `None` when
/// the text is not JSON.
#[verifier::external_body]
pub(crate) fn parse_json(text: &str) -> (r: Option<serde_json::Value>)
    ensures
        match r {
            Some(v) => json_parsed(text@) == Some(json_model(v)),
            None => json_parsed(text@) is None,
        },
{
    serde_json::from_str::<serde_json::Value>(text).ok()
}

/// `Value::get` with a string key: the member of an object, `None` for a
/// missing key or a value that is not an object.
#[verifier::external_body]
pub(crate) fn json_get<'a>(v: &'a serde_json::Value, key: &str) -> (r: Option<&'a serde_json::Value>)
    ensures
        match json_model(*v) {
            Json::Object(ms) => match r {
                Some(c) => member(ms, key@) == Some(json_model(*c)),
                None => member(ms, key@) is None,
            },
            _ => r is None,
        },
{
    v.get(key)
}

/// `Value::as_str`: the text of a string value.
#[verifier::external_body]
pub(crate) fn json_as_str(v: &serde_json::Value) -> (r: Option<&str>)
    ensures
        match json_model(*v) {
            Json::Str(s) => r matches Some(t) && t@ == s,
            _ => r is None,
        },
{
    v.as_str()
}

/// `Value::as_object`: the map of an object value.
#[verifier::external_body]
pub(crate) fn json_as_object(v: &serde_json::Value) -> (r: Option<&serde_json::Map<String, serde_json::Value>>)
    ensures
        match json_model(*v) {
            Json::Object(ms) => r matches Some(m) && json_members(*m) == ms,
            _ => r is None,
        },
{
    v.as_object()
}

/// `Map::keys`, collected: the member names in iteration order. A map
/// holds each key once.
#[verifier::external_body]
pub(crate) fn json_keys(m: &serde_json::Map<String, serde_json::Value>) -> (r: Vec<String>)
    ensures
        texts(r@) == json_members(*m).map_values(|e: (Seq<char>, Json)| e.0),
        texts(r@).no_duplicates(),
{
    m.keys().cloned().collect()
}

/// `Map::get`: the value stored under `key`.
#[verifier::external_body]
pub(crate) fn json_member<'a>(m: &'a serde_json::Map<String, serde_json::Value>, key: &str) -> (r: Option<&'a serde_json::Value>)
    ensures
        match r {
            Some(c) => member(json_members(*m), key@) == Some(json_model(*c)),
            None => member(json_members(*m), key@) is None,
        },
{
    m.get(key)
}

/// `Value::as_array`: the elements of an array value.
#[verifier::external_body]
pub(crate) fn json_as_array(v: &serde_json::Value) -> (r: Option<&Vec<serde_json::Value>>)
    ensures
        match json_model(*v) {
            Json::Array(xs) => r matches Some(a) && a@.map_values(|x: serde_json::Value| json_model(x)) == xs,
            _ => r is None,
        },
{
    v.as_array()
}

} // verus!
