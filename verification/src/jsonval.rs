//! Trusted surface over `serde_json`: parsing an incremental event's payload
//! and navigating the resulting JSON value.
//!
//! The parsed value is opaque to the verifier, so its contents are given a
//! name: [`json_model`] maps a value to [`JsonModel`], a plain-data picture
//! of the document, and [`json_doc`] names the picture that parsing a given
//! text yields — a function of the text alone. Each wrapper below wraps
//! exactly one `serde_json` call and states, over these names, what that
//! call's source shows: which lookups succeed and what they return. The
//! adapter's shape checks are then verified code with exact contracts, and
//! the concrete behaviour is exercised by tests run against the real crate.

use vstd::prelude::*;

verus! {

#[verifier::external_type_specification]
#[verifier::external_body]
pub struct ExValue(serde_json::Value);

/// A JSON document as plain data: the structure the adapter's logic reads.
/// Numbers carry no value here — nothing in this crate reads one.
pub enum JsonModel {
    Null,
    Truth(bool),
    Number,
    Text(Seq<char>),
    Array(Seq<JsonModel>),
    Object(Map<Seq<char>, JsonModel>),
}

/// Whether `serde_json::from_str` accepts a text as a JSON document. Which
/// texts it accepts (the JSON grammar, up to the parser's nesting limit)
/// depends on the text alone.
pub uninterp spec fn json_wellformed(s: Seq<char>) -> bool;

/// The document that `serde_json::from_str` yields on a text it accepts;
/// like acceptance, it depends on the text alone.
pub uninterp spec fn json_doc(s: Seq<char>) -> JsonModel;

/// What a parsed JSON value holds. This is the contents name the navigation
/// wrappers below speak over.
pub uninterp spec fn json_model(v: serde_json::Value) -> JsonModel;

/// Relies on serde_json::from_str::<Value>: returns the parsed value exactly
/// for the texts the parser accepts, and what it holds is the document named
/// by the text.
#[verifier::external_body]
pub fn parse_json(data: &str) -> (r: Option<serde_json::Value>)
    ensures
        r is Some <==> json_wellformed(data@),
        r matches Some(v) ==> json_model(v) == json_doc(data@),
{
    serde_json::from_str::<serde_json::Value>(data).ok()
}

/// Relies on serde_json::Value::get with a string index: the value under a
/// key exactly when `v` is an object holding that key.
#[verifier::external_body]
pub fn json_get<'a>(v: &'a serde_json::Value, key: &str) -> (r: Option<&'a serde_json::Value>)
    ensures
        match r {
            Some(c) => json_model(*v) matches JsonModel::Object(m) && m.contains_key(key@)
                && json_model(*c) == m[key@],
            None => !(json_model(*v) matches JsonModel::Object(m) && m.contains_key(key@)),
        },
{
    v.get(key)
}

/// Relies on serde_json::Value::get with a usize index: the element at an
/// index exactly when `v` is an array long enough.
#[verifier::external_body]
pub fn json_index<'a>(v: &'a serde_json::Value, i: usize) -> (r: Option<&'a serde_json::Value>)
    ensures
        match r {
            Some(c) => json_model(*v) matches JsonModel::Array(a) && i < a.len() && json_model(*c)
                == a[i as int],
            None => !(json_model(*v) matches JsonModel::Array(a) && i < a.len()),
        },
{
    v.get(i)
}

/// Relies on serde_json::Value::as_array: the element count exactly when `v`
/// is an array.
#[verifier::external_body]
pub fn json_array_len(v: &serde_json::Value) -> (r: Option<usize>)
    ensures
        match r {
            Some(n) => json_model(*v) matches JsonModel::Array(a) && a.len() == n,
            None => !(json_model(*v) is Array),
        },
{
    match v.as_array() {
        Some(a) => Some(a.len()),
        None => None,
    }
}

/// Relies on serde_json::Value::is_object.
#[verifier::external_body]
pub fn json_is_object(v: &serde_json::Value) -> (r: bool)
    ensures
        r == (json_model(*v) is Object),
{
    v.is_object()
}

/// Relies on serde_json::Value::is_null.
#[verifier::external_body]
pub fn json_is_null(v: &serde_json::Value) -> (r: bool)
    ensures
        r == (json_model(*v) is Null),
{
    v.is_null()
}

/// Relies on serde_json::Value::as_str: the contained text exactly when `v`
/// is a JSON string.
#[verifier::external_body]
pub fn json_as_string(v: &serde_json::Value) -> (r: Option<String>)
    ensures
        match r {
            Some(t) => json_model(*v) == JsonModel::Text(t@),
            None => !(json_model(*v) is Text),
        },
{
    match v.as_str() {
        Some(s) => Some(s.to_string()),
        None => None,
    }
}

} // verus!
