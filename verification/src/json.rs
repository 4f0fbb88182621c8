//! The JSON primitives that the library takes from `serde_json`.
//!
//! Nothing in this file is proved: each item states what the library assumes
//! of `serde_json`. The rest of the library reasons only from these
//! statements.

use vstd::prelude::*;

verus! {

/// `serde_json::Value`, one JSON value. Its inside is not visible to proofs.
#[verifier::external_type_specification]
#[verifier::external_body]
pub struct ExValue(serde_json::Value);

/// `serde_json::Map`, the members of one JSON object.
#[verifier::external_type_specification]
#[verifier::external_body]
#[verifier::reject_recursive_types(K)]
#[verifier::reject_recursive_types(V)]
pub struct ExObject<K, V>(serde_json::Map<K, V>);

/// `serde_json::Error`.
#[verifier::external_type_specification]
#[verifier::external_body]
pub struct ExJsonError(serde_json::Error);

/// The members that a JSON object holds, by name.
pub uninterp spec fn members(object: serde_json::Map<String, serde_json::Value>) -> Map<Seq<char>, serde_json::Value>;

/// The members of the JSON object that `raw` spells, where it spells one.
pub uninterp spec fn parsed(raw: Seq<char>) -> Option<Map<Seq<char>, serde_json::Value>>;

/// The compact JSON text of an object with the given members, where it can be
/// written.
pub uninterp spec fn rendered(members: Map<Seq<char>, serde_json::Value>) -> Option<Seq<char>>;

/// The characters of a JSON string; `None` for any other value.
pub uninterp spec fn text_of(value: serde_json::Value) -> Option<Seq<char>>;

/// The elements of a JSON array; `None` for any other value.
pub uninterp spec fn items_of(value: serde_json::Value) -> Option<Seq<serde_json::Value>>;

/// `serde_json::from_str` at the type `Map<String, Value>`: succeeds exactly
/// on the texts that `parsed` knows, with those members.
#[verifier::external_body]
pub(crate) fn parse_object(raw: &str) -> (r: Result<
    serde_json::Map<String, serde_json::Value>,
    serde_json::Error,
>)
    ensures
        r matches Ok(object) ==> parsed(raw@) == Some(members(object)),
        r is Err ==> parsed(raw@) is None,
{
    serde_json::from_str::<serde_json::Map<String, serde_json::Value>>(raw)
}

/// `serde_json::to_string` on an object: the text depends on the members
/// alone.
#[verifier::external_body]
pub(crate) fn render_object(object: &serde_json::Map<String, serde_json::Value>) -> (r: Result<
    String,
    serde_json::Error,
>)
    ensures
        r matches Ok(text) ==> rendered(members(*object)) == Some(text@),
        r is Err ==> rendered(members(*object)) is None,
{
    serde_json::to_string(object)
}

/// `serde_json::Map::get`: the member of that name, if the object has one.
#[verifier::external_body]
pub(crate) fn object_get<'a>(
    object: &'a serde_json::Map<String, serde_json::Value>,
    name: &str,
) -> (r: Option<&'a serde_json::Value>)
    ensures
        r matches Some(value) ==> members(*object).contains_key(name@) && members(*object)[name@]
            == *value,
        r is None ==> !members(*object).contains_key(name@),
{
    object.get(name)
}

/// `serde_json::Map::remove`: the member of that name leaves, the others stay.
#[verifier::external_body]
pub(crate) fn object_remove(object: &mut serde_json::Map<String, serde_json::Value>, name: &str)
    ensures
        members(*final(object)) == members(*old(object)).remove(name@),
{
    object.remove(name);
}

/// `serde_json::Value::as_str`.
#[verifier::external_body]
pub(crate) fn value_as_str<'a>(value: &'a serde_json::Value) -> (r: Option<&'a str>)
    ensures
        r matches Some(text) ==> text_of(*value) == Some(text@),
        r is None ==> text_of(*value) is None,
{
    value.as_str()
}

/// `serde_json::Value::as_array`.
#[verifier::external_body]
pub(crate) fn value_as_array<'a>(value: &'a serde_json::Value) -> (r: Option<
    &'a Vec<serde_json::Value>,
>)
    ensures
        r matches Some(items) ==> items_of(*value) == Some(items@),
        r is None ==> items_of(*value) is None,
{
    value.as_array()
}

} // verus!
