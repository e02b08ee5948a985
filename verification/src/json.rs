//! JSON values: what a `serde_json::Value` holds, how the protocols read one, and how they build one.
use vstd::prelude::*;

use serde_json::Value;

verus! {

/// A JSON number, as `serde_json` keeps it.
pub enum JsonNumber {
    /// A whole number from zero up.
    Unsigned(u64),
    /// A whole number below zero.
    Negative(i64),
    /// Any other number, as the bits of an IEEE 754 double.
    Double(u64),
}

/// What a JSON value holds.
pub enum Json {
    Null,
    Bool(bool),
    Number(JsonNumber),
    Text(Seq<char>),
    Array(Seq<Json>),
    Object(Map<Seq<char>, Json>),
}

impl Json {
    /// The entry of an object under `key`.
    pub open spec fn field(self, key: Seq<char>) -> Option<Json> {
        match self {
            Json::Object(entries) => if entries.contains_key(key) {
                Some(entries[key])
            } else {
                None
            },
            _ => None,
        }
    }

    /// The characters of a text.
    pub open spec fn text(self) -> Option<Seq<char>> {
        match self {
            Json::Text(text) => Some(text),
            _ => None,
        }
    }

    /// The truth value of a boolean.
    pub open spec fn flag(self) -> Option<bool> {
        match self {
            Json::Bool(flag) => Some(flag),
            _ => None,
        }
    }

    /// The items of an array.
    pub open spec fn items(self) -> Option<Seq<Json>> {
        match self {
            Json::Array(items) => Some(items),
            _ => None,
        }
    }

    /// The value of a number that is kept as a whole number from zero up.
    pub open spec fn unsigned(self) -> Option<u64> {
        match self {
            Json::Number(JsonNumber::Unsigned(n)) => Some(n),
            _ => None,
        }
    }

    /// The bits of a number read as a double: its own where it is kept as one.
    pub open spec fn double(self) -> Option<u64> {
        match self {
            Json::Number(JsonNumber::Double(bits)) => Some(bits),
            Json::Number(whole) => Some(double_bits(whole)),
            _ => None,
        }
    }

    /// The text of an object's entry under `key`.
    pub open spec fn text_field(self, key: Seq<char>) -> Option<Seq<char>> {
        match self.field(key) {
            Some(entry) => entry.text(),
            None => None,
        }
    }

    /// The truth value of an object's entry under `key`.
    pub open spec fn flag_field(self, key: Seq<char>) -> Option<bool> {
        match self.field(key) {
            Some(entry) => entry.flag(),
            None => None,
        }
    }
}

/// The JSON value of `serde_json`, opaque here: [`content`] says what one holds.
#[verifier::external_type_specification]
#[verifier::external_body]
pub struct ExValue(serde_json::Value);

/// The JSON object of `serde_json`, opaque here: [`entries`] says what one holds.
#[verifier::external_type_specification]
#[verifier::external_body]
#[verifier::reject_recursive_types(K)]
#[verifier::reject_recursive_types(V)]
pub struct ExMap<K, V>(serde_json::Map<K, V>);

/// What a JSON value holds.
pub uninterp spec fn content(value: serde_json::Value) -> Json;

/// What a JSON object under construction holds.
pub uninterp spec fn entries(object: serde_json::Map<String, serde_json::Value>) -> Map<
    Seq<char>,
    Json,
>;

/// The bits of a whole JSON number read as a double, which is rounded to where it has to be.
pub uninterp spec fn double_bits(number: JsonNumber) -> u64;

/// What `serde_json` reads from a text: the value, or the message of the error.
pub uninterp spec fn parsed(text: Seq<char>) -> Result<Json, Seq<char>>;

/// The compact text that `serde_json` writes for a value.
pub uninterp spec fn rendered(value: Json) -> Seq<char>;

/// Whether the bits are those of a finite double.
pub open spec fn finite_bits(bits: u64) -> bool {
    bits % 0x8000_0000_0000_0000 < 0x7ff0_0000_0000_0000
}

/// `Value::get` with a text: the entry of an object, and nothing for any other value.
#[verifier::external_body]
pub(crate) fn get<'a>(value: &'a Value, key: &str) -> (r: Option<&'a Value>)
    ensures
        match r {
            Some(entry) => content(*value).field(key@) == Some(content(*entry)),
            None => content(*value).field(key@) is None,
        },
{
    value.get(key)
}

/// `Value::as_str`: the characters of a text, and nothing for any other value.
pub assume_specification[ serde_json::Value::as_str ](value: &serde_json::Value) -> (r: Option<
    &str,
>)
    ensures
        match r {
            Some(text) => content(*value).text() == Some(text@),
            None => content(*value).text() is None,
        },
;

/// `Value::as_bool`: the truth value of a boolean, and nothing for any other value.
pub assume_specification[ serde_json::Value::as_bool ](value: &serde_json::Value) -> (r: Option<
    bool,
>)
    ensures
        r == content(*value).flag(),
;

/// `Value::as_u64`: a number that is kept as a whole number from zero up, and nothing for any
/// other value.
pub assume_specification[ serde_json::Value::as_u64 ](value: &serde_json::Value) -> (r: Option<u64>)
    ensures
        r == content(*value).unsigned(),
;

/// `Value::as_array`: the items of an array in order, and nothing for any other value.
pub assume_specification[ serde_json::Value::as_array ](value: &serde_json::Value) -> (r: Option<
    &Vec<serde_json::Value>,
>)
    ensures
        match r {
            Some(items) => content(*value).items() == Some(contents(items@)),
            None => content(*value).items() is None,
        },
;

/// `Value::as_f64`, handed on as bits: every number has one, it is finite, and a number that is
/// kept as a double is read as it is.
#[verifier::external_body]
pub(crate) fn as_double(value: &Value) -> (r: Option<u64>)
    ensures
        match content(*value) {
            Json::Number(JsonNumber::Double(bits)) => r == Some(bits),
            Json::Number(whole) => r == Some(double_bits(whole)),
            _ => r is None,
        },
        r matches Some(bits) ==> finite_bits(bits),
{
    value.as_f64().map(|number| number.to_bits())
}

/// `Value::clone`: a value that holds the same.
pub assume_specification[ <serde_json::Value as Clone>::clone ](value: &serde_json::Value) -> (r:
    serde_json::Value)
    ensures
        content(r) == content(*value),
;

/// `Value::to_string`: the compact text of a value.
#[verifier::external_body]
pub(crate) fn render(value: &Value) -> (r: String)
    ensures
        r@ == rendered(content(*value)),
{
    value.to_string()
}

/// `serde_json::from_str` into a value; the error as its message.
#[verifier::external_body]
pub(crate) fn parse(text: &str) -> (r: Result<Value, String>)
    ensures
        match r {
            Ok(value) => parsed(text@) == Ok::<Json, Seq<char>>(content(value)),
            Err(message) => parsed(text@) == Err::<Json, Seq<char>>(message@),
        },
{
    serde_json::from_str(text).map_err(|e| e.to_string())
}

/// `Map::new`: an object without entries.
#[verifier::external_body]
pub(crate) fn empty_object() -> (r: serde_json::Map<String, Value>)
    ensures
        entries(r).is_empty(),
{
    serde_json::Map::new()
}

/// `Map::insert`: the entry under `key` becomes `value`, whatever was there before; the others
/// stay.
#[verifier::external_body]
pub(crate) fn put(object: &mut serde_json::Map<String, Value>, key: &str, value: Value)
    ensures
        entries(*final(object)) == entries(*old(object)).insert(key@, content(value)),
{
    object.insert(key.to_owned(), value);
}

/// `Value::Object`: the value whose entries are those of `object`.
#[verifier::external_body]
pub(crate) fn object_value(object: serde_json::Map<String, Value>) -> (r: Value)
    ensures
        content(r) == Json::Object(entries(object)),
{
    Value::Object(object)
}

/// `Value::String`: a text.
#[verifier::external_body]
pub(crate) fn text_value(text: &str) -> (r: Value)
    ensures
        content(r) == Json::Text(text@),
{
    Value::String(text.to_owned())
}

/// `Value::Bool`: a boolean.
#[verifier::external_body]
pub(crate) fn flag_value(flag: bool) -> (r: Value)
    ensures
        content(r) == Json::Bool(flag),
{
    Value::Bool(flag)
}

/// `Value::from` an unsigned integer: a number that is kept as a whole number from zero up.
#[verifier::external_body]
pub(crate) fn number_value(number: u64) -> (r: Value)
    ensures
        content(r) == Json::Number(JsonNumber::Unsigned(number)),
{
    Value::from(number)
}

/// `Value::Null`.
#[verifier::external_body]
pub(crate) fn null_value() -> (r: Value)
    ensures
        content(r) == Json::Null,
{
    Value::Null
}

/// `Value::Array`: the items in order.
#[verifier::external_body]
pub(crate) fn array_value(items: Vec<Value>) -> (r: Value)
    ensures
        content(r) == Json::Array(contents(items@)),
{
    Value::Array(items)
}

/// What each of a sequence of values holds.
pub open spec fn contents(values: Seq<serde_json::Value>) -> Seq<Json> {
    values.map_values(|value: serde_json::Value| content(value))
}

/// The text of an object's entry under `key`.
pub fn text_field<'a>(value: &'a Value, key: &str) -> (r: Option<&'a str>)
    ensures
        match r {
            Some(text) => content(*value).text_field(key@) == Some(text@),
            None => content(*value).text_field(key@) is None,
        },
{
    match get(value, key) {
        Some(entry) => entry.as_str(),
        None => None,
    }
}

/// The truth value of an object's entry under `key`.
pub fn flag_field(value: &Value, key: &str) -> (r: Option<bool>)
    ensures
        r == content(*value).flag_field(key@),
{
    match get(value, key) {
        Some(entry) => entry.as_bool(),
        None => None,
    }
}

/// The parameters of a call that takes none.
pub fn no_params() -> (r: Value)
    ensures
        content(r) == Json::Object(Map::empty()),
{
    let params: serde_json::Map<String, Value> = empty_object();
    proof {
        assert(entries(params) =~= Map::<Seq<char>, Json>::empty());
    }
    object_value(params)
}

} // verus!
