//! The JSON documents that records are made of, and the boundary to
//! `serde_json`, which holds them, keeps the fields of an object sorted by
//! key, and writes them as text.
//!
//! The contracts of the functions that call `serde_json` are taken on trust
//! from its source; everything else in this library is proved from them.

use vstd::prelude::*;

verus! {

/// A JSON document as this library builds it. The order of an object's keys
/// is no part of it.
pub enum Json {
    /// A string.
    Text(Seq<char>),
    /// An array, in order.
    List(Seq<Json>),
    /// An object: its fields by key.
    Object(Map<Seq<char>, Json>),
}

/// The object without any field.
pub open spec fn no_fields() -> Map<Seq<char>, Json> {
    Map::empty()
}

/// `serde_json::Value`, carried through without a look inside.
#[verifier::external_type_specification]
#[verifier::external_body]
pub struct ExValue(serde_json::Value);

/// `serde_json::Map`, carried through without a look inside.
#[verifier::external_type_specification]
#[verifier::external_body]
#[verifier::reject_recursive_types(K)]
#[verifier::reject_recursive_types(V)]
pub struct ExMap<K, V>(serde_json::Map<K, V>);

/// The document that a `serde_json::Value` holds. Only of strings, arrays
/// and objects is it said which document that is.
pub uninterp spec fn json_of(value: serde_json::Value) -> Json;

/// The fields that a `serde_json::Map` holds, by key.
pub uninterp spec fn fields_of(map: serde_json::Map<String, serde_json::Value>) -> Map<Seq<char>, Json>;

/// The documents that a list of values holds, in order.
pub open spec fn documents_of(items: Seq<serde_json::Value>) -> Seq<Json> {
    items.map_values(|item: serde_json::Value| json_of(item))
}

/// `serde_json::Value::String`: the string value with exactly the given text.
#[verifier::external_body]
pub(crate) fn json_text(text: String) -> (value: serde_json::Value)
    ensures
        json_of(value) == Json::Text(text@),
{
    serde_json::Value::String(text)
}

/// `serde_json::Value::Array`: the array whose elements are the given values, in order.
#[verifier::external_body]
pub(crate) fn json_list(items: Vec<serde_json::Value>) -> (value: serde_json::Value)
    ensures
        json_of(value) == Json::List(documents_of(items@)),
{
    serde_json::Value::Array(items)
}

/// `serde_json::Value::Object`: the object with exactly the fields of the given map.
#[verifier::external_body]
pub(crate) fn json_object(fields: serde_json::Map<String, serde_json::Value>) -> (value: serde_json::Value)
    ensures
        json_of(value) == Json::Object(fields_of(fields)),
{
    serde_json::Value::Object(fields)
}

/// `serde_json::Map::new`: a map without fields.
#[verifier::external_body]
pub(crate) fn fields_new() -> (made: serde_json::Map<String, serde_json::Value>)
    ensures
        fields_of(made) == no_fields(),
{
    serde_json::Map::new()
}

/// `serde_json::Map::insert`: sets the field `key` to `value`, replacing any
/// earlier value under that key and leaving every other field as it was.
#[verifier::external_body]
pub(crate) fn fields_insert(
    fields: &mut serde_json::Map<String, serde_json::Value>,
    key: String,
    value: serde_json::Value,
)
    ensures
        fields_of(*final(fields)) == fields_of(*old(fields)).insert(key@, json_of(value)),
{
    fields.insert(key, value);
}

/// What `serde_json` writes for a document as pretty-printed text, indented
/// by two spaces and with the fields of an object in the order of their keys,
/// or nothing where its serializer reports an error for that document.
pub uninterp spec fn pretty_text(document: Json) -> Option<Seq<char>>;

/// The text of an optional string.
pub open spec fn optional_text(text: Option<String>) -> Option<Seq<char>> {
    match text {
        Some(written) => Some(written@),
        None => None,
    }
}

/// `serde_json::to_string_pretty`: what the serializer gives for the document
/// that the value holds, its text or, where it reports an error, nothing. The
/// same document always gives the same.
#[verifier::external_body]
fn pretty(value: &serde_json::Value) -> (text: Option<String>)
    ensures
        optional_text(text) == pretty_text(json_of(*value)),
{
    serde_json::to_string_pretty(value).ok()
}

/// Writes a document as pretty-printed JSON text: gives the text that the
/// serializer writes for it, and nothing only where the serializer reports an
/// error.
pub fn render(value: &serde_json::Value) -> (text: Option<String>)
    ensures
        optional_text(text) == pretty_text(json_of(*value)),
{
    pretty(value)
}

} // verus!
