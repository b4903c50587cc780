//! JSON values, built with `serde_json`.
use serde_json::Value;
use vstd::prelude::*;

verus! {

/// A JSON value of `serde_json`.
#[verifier::external_type_specification]
#[verifier::external_body]
pub struct ExValue(serde_json::Value);

/// The members of a JSON object of `serde_json`.
#[verifier::external_type_specification]
#[verifier::external_body]
#[verifier::reject_recursive_types(K)]
#[verifier::reject_recursive_types(V)]
pub struct ExObject<K, V>(serde_json::Map<K, V>);

/// What a JSON value holds. Counts are the numbers that are built here; nothing is
/// said of what other numbers hold.
pub enum Json {
    Null,
    Flag(bool),
    Count(nat),
    Text(Seq<char>),
    List(Seq<Json>),
    Record(Map<Seq<char>, Json>),
}

/// What a JSON value of `serde_json` holds.
pub uninterp spec fn json_of(value: Value) -> Json;

/// The members of a JSON object of `serde_json`, by name.
pub uninterp spec fn members_of(
    object: serde_json::Map<String, Value>,
) -> Map<Seq<char>, Json>;

/// No members.
pub open spec fn no_entries() -> Map<Seq<char>, Json> {
    Map::empty()
}

/// Builds a [`serde_json::Value::String`]: a JSON string that holds the text.
#[verifier::external_body]
pub(crate) fn text_value(text: &str) -> (value: Value)
    ensures
        json_of(value) == Json::Text(text@),
{
    Value::String(text.to_owned())
}

/// Builds a [`serde_json::Value::Bool`]: a JSON boolean that holds the flag.
#[verifier::external_body]
pub(crate) fn flag_value(flag: bool) -> (value: Value)
    ensures
        json_of(value) == Json::Flag(flag),
{
    Value::Bool(flag)
}

/// Converts with `From<u32>` of [`serde_json::Value`]: a JSON number that holds
/// the count.
#[verifier::external_body]
pub(crate) fn count_value(count: u32) -> (value: Value)
    ensures
        json_of(value) == Json::Count(count as nat),
{
    Value::from(count)
}

/// Builds a [`serde_json::Value::Array`]: a JSON array that holds the items in
/// their order.
#[verifier::external_body]
pub(crate) fn list_value(items: Vec<Value>) -> (value: Value)
    ensures
        json_of(value) == Json::List(items@.map_values(|item: Value| json_of(item))),
{
    Value::Array(items)
}

/// Builds a [`serde_json::Value::Object`]: a JSON object that holds the members.
#[verifier::external_body]
pub(crate) fn record_value(members: serde_json::Map<String, Value>) -> (value: Value)
    ensures
        json_of(value) == Json::Record(members_of(members)),
{
    Value::Object(members)
}

/// Calls [`serde_json::Map::new`]: no members.
#[verifier::external_body]
pub(crate) fn no_members() -> (members: serde_json::Map<String, Value>)
    ensures
        members_of(members) == no_entries(),
{
    serde_json::Map::new()
}

/// Calls [`serde_json::Map::insert`]: the member of that name becomes the value,
/// and the other members stay.
#[verifier::external_body]
pub(crate) fn insert(
    members: &mut serde_json::Map<String, Value>,
    name: &str,
    value: Value,
)
    ensures
        members_of(*final(members)) == members_of(*old(members)).insert(name@, json_of(value)),
{
    members.insert(name.to_owned(), value);
}

} // verus!
