//! JSON values, as `serde_json` holds and writes them.
//!
//! What is believed of `serde_json` stands in this file. A value is described by its tree; the
//! text of a value depends on its tree alone, because objects keep their fields in the order of
//! the names.
use crate::decimal::is_plain;
use vstd::prelude::*;

verus! {

/// What a JSON value holds.
pub enum Json {
    Null,
    /// A whole number that is not negative.
    Count(u64),
    /// A number that is not held as a whole one, by the text in which it is written.
    Number(Seq<char>),
    Text(Seq<char>),
    Array(Seq<Json>),
    Object(Map<Seq<char>, Json>),
}

/// `serde_json::Value`.
#[verifier::external_type_specification]
#[verifier::external_body]
pub struct ExValue(serde_json::Value);

/// `serde_json::Map`.
#[verifier::external_type_specification]
#[verifier::external_body]
#[verifier::reject_recursive_types(K)]
#[verifier::reject_recursive_types(V)]
pub struct ExMap<K, V>(serde_json::Map<K, V>);

/// What a `serde_json::Value` holds.
pub uninterp spec fn json_tree(v: serde_json::Value) -> Json;

/// What a `serde_json::Map` holds: for each name, what its value holds.
pub uninterp spec fn json_fields(m: serde_json::Map<String, serde_json::Value>) -> Map<
    Seq<char>,
    Json,
>;

/// The text in which `serde_json` writes a number that it read in plain decimal notation.
pub uninterp spec fn json_number(text: Seq<u8>) -> Seq<char>;

/// The text in which `serde_json` writes a value.
pub uninterp spec fn json_text(tree: Json) -> Seq<char>;

/// `serde_json::Value::Null`: the value that holds nothing.
#[verifier::external_body]
pub(crate) fn null_value() -> (r: serde_json::Value)
    ensures
        json_tree(r) == Json::Null,
{
    serde_json::Value::Null
}

/// `serde_json::Value::from` on a string: a value that holds that string.
#[verifier::external_body]
pub(crate) fn text_value(s: &str) -> (r: serde_json::Value)
    ensures
        json_tree(r) == Json::Text(s@),
{
    serde_json::Value::from(s)
}

/// `serde_json::Value::from` on a `u32`: a value that holds that number.
#[verifier::external_body]
pub(crate) fn count_value(n: u32) -> (r: serde_json::Value)
    ensures
        json_tree(r) == Json::Count(n as u64),
{
    serde_json::Value::from(n)
}

/// `serde_json::from_slice`: reads a number. Plain decimal notation with at most 300 digits is
/// read without an error, and gives a number with a point.
#[verifier::external_body]
pub(crate) fn number_value(text: &Vec<u8>) -> (r: serde_json::Value)
    requires
        is_plain(text@),
    ensures
        json_tree(r) == Json::Number(json_number(text@)),
{
    serde_json::from_slice(text).unwrap()
}

/// `serde_json::Value::from` on a vector of values: a value that holds them in their order.
#[verifier::external_body]
pub(crate) fn array_value(items: Vec<serde_json::Value>) -> (r: serde_json::Value)
    ensures
        json_tree(r) == Json::Array(items@.map_values(|v: serde_json::Value| json_tree(v))),
{
    serde_json::Value::from(items)
}

/// No field at all.
pub open spec fn without_fields() -> Map<Seq<char>, Json> {
    Map::empty()
}

/// `serde_json::Map::new`: a map without fields.
#[verifier::external_body]
pub(crate) fn no_fields() -> (r: serde_json::Map<String, serde_json::Value>)
    ensures
        json_fields(r) == without_fields(),
{
    serde_json::Map::new()
}

/// `serde_json::Map::insert`: sets a field, whether or not there was one of that name.
#[verifier::external_body]
pub(crate) fn set_field(
    m: &mut serde_json::Map<String, serde_json::Value>,
    name: &str,
    v: serde_json::Value,
)
    ensures
        json_fields(*final(m)) == json_fields(*old(m)).insert(name@, json_tree(v)),
{
    m.insert(name.to_string(), v);
}

/// `serde_json::Value::from` on a map: a value that holds the fields of the map.
#[verifier::external_body]
pub(crate) fn object_value(m: serde_json::Map<String, serde_json::Value>) -> (r: serde_json::Value)
    ensures
        json_tree(r) == Json::Object(json_fields(m)),
{
    serde_json::Value::from(m)
}

/// `serde_json::Value::to_string`: the text of a value.
#[verifier::external_body]
pub(crate) fn value_text(v: &serde_json::Value) -> (r: String)
    ensures
        r@ == json_text(json_tree(*v)),
{
    v.to_string()
}

} // verus!
