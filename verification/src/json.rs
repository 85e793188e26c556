//! JSON documents.
use vstd::prelude::*;

verus! {

/// A JSON document of `serde_json`: lists and fields by name, at any depth.
#[verifier::external_type_specification]
#[verifier::external_body]
pub struct ExValue(serde_json::Value);

/// What a JSON document holds.
pub enum Json {
    Null,
    Bool(bool),
    Number,
    Text(Seq<char>),
    List(Seq<Json>),
    Fields(Map<Seq<char>, Json>),
}

/// What a document of `serde_json` holds.
pub uninterp spec fn json_of(value: serde_json::Value) -> Json;

/// What `serde_json::from_slice` reads from bytes: a document, or the text of its error where
/// they are no JSON.
pub uninterp spec fn parsed_json(bytes: Seq<u8>) -> Result<Json, Seq<char>>;

/// `serde_json::from_slice`: the document that the bytes hold, or the text of the error where
/// they are no JSON, as the bytes alone determine.
#[verifier::external_body]
pub(crate) fn parse(bytes: &Vec<u8>) -> (r: Result<serde_json::Value, String>)
    ensures
        match r {
            Ok(value) => parsed_json(bytes@) == Ok::<Json, Seq<char>>(json_of(value)),
            Err(cause) => parsed_json(bytes@) == Err::<Json, Seq<char>>(cause@),
        },
{
    serde_json::from_slice(bytes).map_err(|error| error.to_string())
}

/// A field of a document.
pub open spec fn field_of(value: Json, name: Seq<char>) -> Option<Json> {
    match value {
        Json::Fields(fields) => if fields.dom().contains(name) {
            Some(fields[name])
        } else {
            None
        },
        _ => None,
    }
}

/// `serde_json::Value::get` with a name: the field of that name, nothing where the value has
/// no fields or not that one.
#[verifier::external_body]
pub(crate) fn field<'a>(value: &'a serde_json::Value, name: &str) -> (r: Option<
    &'a serde_json::Value,
>)
    ensures
        match r {
            Some(found) => field_of(json_of(*value), name@) == Some(json_of(*found)),
            None => field_of(json_of(*value), name@) is None,
        },
{
    value.get(name)
}

/// `serde_json::Value::is_object`: whether the value has fields.
#[verifier::external_body]
pub(crate) fn is_object(value: &serde_json::Value) -> (r: bool)
    ensures
        r == (json_of(*value) is Fields),
{
    value.is_object()
}

/// `serde_json::Value::is_string`: whether the value is a text.
#[verifier::external_body]
pub(crate) fn is_string(value: &serde_json::Value) -> (r: bool)
    ensures
        r == (json_of(*value) is Text),
{
    value.is_string()
}

/// The documents of a list.
pub open spec fn documents(values: Seq<serde_json::Value>) -> Seq<Json> {
    values.map_values(|value: serde_json::Value| json_of(value))
}

/// `serde_json::Value::as_array`: the elements in order, nothing where the value is no list.
#[verifier::external_body]
pub(crate) fn as_array(value: &serde_json::Value) -> (r: Option<&Vec<serde_json::Value>>)
    ensures
        match r {
            Some(values) => json_of(*value) == Json::List(documents(values@)),
            None => !(json_of(*value) is List),
        },
{
    value.as_array()
}

} // verus!
