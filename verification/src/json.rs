//! JSON documents, read and written with `serde_json`.

use crate::double;
use serde_json::Value;
use vstd::arithmetic::power2::*;
use vstd::prelude::*;

verus! {

/// A JSON number: a whole one as it is, any other as the bit pattern of a double-precision number.
pub enum NumberModel {
    Unsigned(u64),
    Negative(i64),
    Float(u64),
}

/// A JSON document.
pub enum JsonModel {
    Null,
    Bool(bool),
    Number(NumberModel),
    Text(Seq<char>),
    Array(Seq<JsonModel>),
    Object(Map<Seq<char>, JsonModel>),
}

/// `serde_json::Value`, a JSON document. What it holds is `json_model`.
#[verifier::external_type_specification]
#[verifier::external_body]
pub struct ExValue(serde_json::Value);

/// `serde_json::Error`, of which nothing is read.
#[verifier::external_type_specification]
#[verifier::external_body]
pub struct ExError(serde_json::Error);

/// What a `serde_json::Value` holds.
pub uninterp spec fn json_model(value: Value) -> JsonModel;

/// The document that `serde_json::from_str` reads in a text, if the text is one.
pub uninterp spec fn parsed_json(text: Seq<char>) -> Option<JsonModel>;

/// What some values hold.
pub open spec fn json_models(values: Seq<Value>) -> Seq<JsonModel> {
    values.map_values(|value: Value| json_model(value))
}

/// Whether a bit pattern is that of the number nearest to a whole number.
pub open spec fn is_nearest(bits: u64, n: int) -> bool {
    let count = if n < 0 {
        -n
    } else {
        n
    };
    &&& bits >= double::SIGN_BIT <==> n < 0
    &&& double::is_finite_bits(bits)
    &&& double::units(bits) == double::rounded(count * pow2(double::UNITS_IN_ONE as nat))
}

/// The bit pattern of the number nearest to a whole number.
pub open spec fn nearest_bits(n: int) -> u64 {
    choose|bits: u64| is_nearest(bits, n)
}

/// The bit pattern of a JSON number as a double-precision number.
pub open spec fn number_bits(number: NumberModel) -> u64 {
    match number {
        NumberModel::Unsigned(n) => nearest_bits(n as int),
        NumberModel::Negative(n) => nearest_bits(n as int),
        NumberModel::Float(bits) => bits,
    }
}

/// A member of a JSON object.
pub open spec fn member(document: JsonModel, key: Seq<char>) -> Option<JsonModel> {
    match document {
        JsonModel::Object(members) => if members.dom().contains(key) {
            Some(members[key])
        } else {
            None
        },
        _ => None,
    }
}

/// The items of a JSON array.
pub open spec fn items_of(document: JsonModel) -> Option<Seq<JsonModel>> {
    match document {
        JsonModel::Array(items) => Some(items),
        _ => None,
    }
}

/// The text of a JSON string.
pub open spec fn text_of(document: JsonModel) -> Option<Seq<char>> {
    match document {
        JsonModel::Text(text) => Some(text),
        _ => None,
    }
}

/// The bit pattern of a JSON number as a double-precision number.
pub open spec fn bits_of(document: JsonModel) -> Option<u64> {
    match document {
        JsonModel::Number(number) => Some(number_bits(number)),
        _ => None,
    }
}

/// The bit pattern of a JSON number that is written with a fraction.
pub open spec fn float_of(document: JsonModel) -> Option<u64> {
    match document {
        JsonModel::Number(NumberModel::Float(bits)) => Some(bits),
        _ => None,
    }
}

/// `serde_json::from_str` into a `serde_json::Value`: the document that the text is, or an error
/// where it is none. Which document a text is, is not stated.
#[verifier::external_body]
pub(crate) fn parse(text: &str) -> (r: Result<Value, serde_json::Error>)
    ensures
        r matches Ok(value) ==> parsed_json(text@) == Some(json_model(value)),
        r is Err ==> parsed_json(text@) is None,
{
    serde_json::from_str(text)
}

/// `serde_json::Value::get` with a string: the member of that name, of an object that has it.
#[verifier::external_body]
pub(crate) fn get<'a>(value: &'a Value, key: &str) -> (r: Option<&'a Value>)
    ensures
        r is Some <==> member(json_model(*value), key@) is Some,
        r matches Some(found) ==> member(json_model(*value), key@) == Some(json_model(*found)),
{
    value.get(key)
}

/// `serde_json::Value::as_array`: the items of an array.
#[verifier::external_body]
pub(crate) fn as_array(value: &Value) -> (r: Option<&Vec<Value>>)
    ensures
        r is Some <==> items_of(json_model(*value)) is Some,
        r matches Some(items) ==> items_of(json_model(*value)) == Some(json_models(items@)),
{
    value.as_array()
}

/// `serde_json::Value::as_str`: the text of a string.
#[verifier::external_body]
pub(crate) fn as_str(value: &Value) -> (r: Option<&str>)
    ensures
        r is Some <==> text_of(json_model(*value)) is Some,
        r matches Some(text) ==> text_of(json_model(*value)) == Some(text@),
{
    value.as_str()
}

/// `serde_json::Value::as_f64`, the result taken as its bit pattern: a number as a double-precision
/// one, which is finite; a whole number becomes the one nearest to it.
#[verifier::external_body]
pub(crate) fn as_bits(value: &Value) -> (r: Option<u64>)
    ensures
        r == bits_of(json_model(*value)),
        r matches Some(bits) ==> double::is_finite_bits(bits),
        r matches Some(bits) ==> match json_model(*value)->Number_0 {
            NumberModel::Unsigned(n) => is_nearest(bits, n as int),
            NumberModel::Negative(n) => is_nearest(bits, n as int),
            NumberModel::Float(held) => bits == held,
        },
{
    match value.as_f64() {
        Some(number) => Some(number.to_bits()),
        None => None,
    }
}

/// `serde_json::Value::is_f64`: whether a value is a number that is held as a double-precision one,
/// not as a whole one.
#[verifier::external_body]
fn is_float(value: &Value) -> (r: bool)
    ensures
        r == float_of(json_model(*value)) is Some,
{
    value.is_f64()
}

/// The bit pattern of a JSON number that is written with a fraction.
pub fn as_float(value: &Value) -> (r: Option<u64>)
    ensures
        r == float_of(json_model(*value)),
{
    if is_float(value) {
        as_bits(value)
    } else {
        None
    }
}

/// `serde_json::Value::clone`: a value that holds the same.
#[verifier::external_body]
pub(crate) fn copy(value: &Value) -> (copy: Value)
    ensures
        json_model(copy) == json_model(*value),
{
    value.clone()
}

/// `serde_json::Value::Object` of an empty `serde_json::Map`: an object without members.
#[verifier::external_body]
pub(crate) fn new_object() -> (value: Value)
    ensures
        json_model(value) == JsonModel::Object(Map::empty()),
{
    Value::Object(serde_json::Map::new())
}

/// Assignment through `serde_json`'s `IndexMut` with a string: the object gets the member, in the
/// place of one of the same name. (It panics on what is neither an object nor null.)
#[verifier::external_body]
pub(crate) fn set(value: &mut Value, key: &str, member: Value)
    requires
        json_model(*old(value)) is Object,
    ensures
        json_model(*final(value)) == JsonModel::Object(
            json_model(*old(value))->Object_0.insert(key@, json_model(member)),
        ),
{
    value[key] = member;
}

/// `serde_json::Value` from a string: a JSON string.
#[verifier::external_body]
pub(crate) fn from_text(text: &str) -> (value: Value)
    ensures
        json_model(value) == JsonModel::Text(text@),
{
    Value::from(text)
}

/// `serde_json::Value` from a `u64`: a JSON number.
#[verifier::external_body]
pub(crate) fn from_u64(n: u64) -> (value: Value)
    ensures
        json_model(value) == JsonModel::Number(NumberModel::Unsigned(n)),
{
    Value::from(n)
}

/// `serde_json::Value` from a `bool`: a JSON truth value.
#[verifier::external_body]
pub(crate) fn from_bool(b: bool) -> (value: Value)
    ensures
        json_model(value) == JsonModel::Bool(b),
{
    Value::from(b)
}

/// `serde_json::Value` from a vector of values: a JSON array.
#[verifier::external_body]
pub(crate) fn from_items(items: Vec<Value>) -> (value: Value)
    ensures
        json_model(value) == JsonModel::Array(json_models(items@)),
{
    Value::from(items)
}

} // verus!
