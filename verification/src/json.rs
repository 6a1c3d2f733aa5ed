//! JSON values of the `serde_json` crate, and what they hold. The contracts in this module are
//! taken from that crate's documentation; nothing here is proved.

use vstd::prelude::*;
use serde_json::Value;

verus! {

/// What a JSON value holds, as far as this crate makes such values.
pub enum Json {
    Text(Seq<char>),
    Number(nat),
    List(Seq<Json>),
    Object(Map<Seq<char>, Json>),
}

/// A JSON value.
#[verifier::external_type_specification]
#[verifier::external_body]
pub struct ExValue(Value);

/// The members of a JSON object.
#[verifier::external_type_specification]
#[verifier::external_body]
#[verifier::reject_recursive_types(K)]
#[verifier::reject_recursive_types(V)]
pub struct ExMap<K, V>(serde_json::Map<K, V>);

/// What `v` holds.
pub uninterp spec fn json_of(v: Value) -> Json;

/// The members that `m` holds, by name.
pub uninterp spec fn members_of(m: serde_json::Map<String, Value>) -> Map<Seq<char>, Json>;

/// What each value of `items` holds.
pub open spec fn jsons(items: Seq<Value>) -> Seq<Json> {
    items.map_values(|v: Value| json_of(v))
}

/// Calls `Value::from` on a string: a JSON string of the same text.
#[verifier::external_body]
pub(crate) fn text(s: &str) -> (v: Value)
    ensures
        json_of(v) == Json::Text(s@),
{
    Value::from(s)
}

/// Calls `Value::from` on an integer: a JSON number of the same value.
#[verifier::external_body]
pub(crate) fn number(n: usize) -> (v: Value)
    ensures
        json_of(v) == Json::Number(n as nat),
{
    Value::from(n)
}

/// Calls `Value::from` on a vector: a JSON array of the same values, in order.
#[verifier::external_body]
pub(crate) fn list(items: Vec<Value>) -> (v: Value)
    ensures
        json_of(v) == Json::List(jsons(items@)),
{
    Value::from(items)
}

/// No members at all.
pub open spec fn nothing() -> Map<Seq<char>, Json> {
    Map::empty()
}

/// Calls `Map::new`: no members.
#[verifier::external_body]
pub(crate) fn no_members() -> (m: serde_json::Map<String, Value>)
    ensures
        members_of(m) == nothing(),
{
    serde_json::Map::new()
}

/// Calls `Map::insert`: the member `name` now has the value `v`, and the others are as before.
#[verifier::external_body]
pub(crate) fn put(m: &mut serde_json::Map<String, Value>, name: &str, v: Value)
    ensures
        members_of(*final(m)) == members_of(*old(m)).insert(name@, json_of(v)),
{
    m.insert(name.to_string(), v);
}

/// Calls `Value::from` on members: a JSON object with just these.
#[verifier::external_body]
pub(crate) fn object(m: serde_json::Map<String, Value>) -> (v: Value)
    ensures
        json_of(v) == Json::Object(members_of(m)),
{
    Value::from(m)
}

} // verus!
