//! JSON values: what a `serde_json::Value` holds, and the calls into
//! `serde_json` that the rest of the library is built on.
//!
//! `serde_json` is used with its default features: an object keeps its entries
//! in a `BTreeMap`, so two objects with the same entries have the same text,
//! and a number is a `u64`, a negative `i64` or a finite `f64`.

use serde_json::Map as JsonMap;
use serde_json::Value;
use vstd::prelude::*;

verus! {

/// `serde_json::Value`, a JSON value. What one holds is named by `json`.
#[verifier::external_type_specification]
#[verifier::external_body]
pub struct ExValue(serde_json::Value);

/// `serde_json::Map`, the entries of a JSON object. What one holds is named by
/// `entries`.
#[verifier::external_type_specification]
#[verifier::external_body]
#[verifier::reject_recursive_types(K)]
#[verifier::reject_recursive_types(V)]
pub struct ExJsonMap<K, V>(serde_json::Map<K, V>);

/// What a JSON value is, as a mathematical tree.
pub enum Json {
    Null,
    Bool(bool),
    /// A whole number that is not negative.
    Unsigned(u64),
    /// A whole number below zero.
    Negative(i64),
    /// Any other number, by the bits of the double that represents it.
    Float(u64),
    Str(Seq<char>),
    Array(Seq<Json>),
    Object(Map<Seq<char>, Json>),
}

impl Json {
    /// The text of a string value.
    pub open spec fn as_str(self) -> Option<Seq<char>> {
        match self {
            Json::Str(s) => Some(s),
            _ => None,
        }
    }

    /// The truth value of a boolean value.
    pub open spec fn as_bool(self) -> Option<bool> {
        match self {
            Json::Bool(b) => Some(b),
            _ => None,
        }
    }

    /// The number of a whole value that is not negative.
    pub open spec fn as_u64(self) -> Option<u64> {
        match self {
            Json::Unsigned(n) => Some(n),
            _ => None,
        }
    }

    /// The elements of an array value.
    pub open spec fn as_array(self) -> Option<Seq<Json>> {
        match self {
            Json::Array(a) => Some(a),
            _ => None,
        }
    }

    /// The entries of an object value.
    pub open spec fn as_object(self) -> Option<Map<Seq<char>, Json>> {
        match self {
            Json::Object(m) => Some(m),
            _ => None,
        }
    }

    /// The member of an object value under `key`.
    pub open spec fn get(self, key: Seq<char>) -> Option<Json> {
        match self {
            Json::Object(m) => lookup(m, key),
            _ => None,
        }
    }
}

/// An object without entries.
pub open spec fn no_entries() -> Map<Seq<char>, Json> {
    Map::empty()
}

/// The entry of `m` under `key`.
pub open spec fn lookup(m: Map<Seq<char>, Json>, key: Seq<char>) -> Option<Json> {
    if m.contains_key(key) {
        Some(m[key])
    } else {
        None
    }
}

/// The text of `v`, where `v` is there and is a string.
pub open spec fn text_of(v: Option<Json>) -> Option<Seq<char>> {
    match v {
        Some(j) => j.as_str(),
        None => None,
    }
}

/// The elements of `v`, where `v` is there and is an array.
pub open spec fn array_of(v: Option<Json>) -> Option<Seq<Json>> {
    match v {
        Some(j) => j.as_array(),
        None => None,
    }
}

/// The member of `v` under `key`, where `v` is there and is an object.
pub open spec fn member_of(v: Option<Json>, key: Seq<char>) -> Option<Json> {
    match v {
        Some(j) => j.get(key),
        None => None,
    }
}

/// `m`, with `v` under `key` where `v` is there.
pub open spec fn with_entry(
    m: Map<Seq<char>, Json>,
    key: Seq<char>,
    v: Option<Json>,
) -> Map<Seq<char>, Json> {
    match v {
        Some(j) => m.insert(key, j),
        None => m,
    }
}

/// What the values of a sequence hold.
pub open spec fn json_seq(s: Seq<Value>) -> Seq<Json> {
    s.map_values(|v: Value| json(v))
}

/// What a borrowed text holds, where it is there.
pub open spec fn str_view(s: Option<&str>) -> Option<Seq<char>> {
    match s {
        Some(t) => Some(t@),
        None => None,
    }
}

/// What a borrowed value holds, where it is there.
pub open spec fn value_view(v: Option<&Value>) -> Option<Json> {
    match v {
        Some(j) => Some(json(*j)),
        None => None,
    }
}

/// What a `serde_json::Value` holds.
pub uninterp spec fn json(v: serde_json::Value) -> Json;

/// What a `serde_json::Map` holds.
pub uninterp spec fn entries(
    m: serde_json::Map<String, serde_json::Value>,
) -> Map<Seq<char>, Json>;

/// The text that `serde_json` prints for a value, without any white space
/// between its parts.
pub uninterp spec fn json_text(j: Json) -> Seq<char>;

/// The outcome of `serde_json` reading a whole text as one value: what the
/// value holds, or the message of the error.
pub uninterp spec fn json_from_str(text: Seq<char>) -> Result<Json, Seq<char>>;

/// The outcome of `serde_json` reading a whole byte string as one value: what
/// the value holds, or the message of the error.
pub uninterp spec fn json_from_slice(bytes: Seq<u8>) -> Result<Json, Seq<char>>;

/// `serde_json::Value::as_str` returns the text of a string value, and `None`
/// for every other value.
pub assume_specification[ serde_json::Value::as_str ](v: &serde_json::Value) -> (r: Option<&str>)
    ensures
        str_view(r) == json(*v).as_str(),
;

/// `serde_json::Value::as_bool` returns the truth value of a boolean value, and
/// `None` for every other value.
pub assume_specification[ serde_json::Value::as_bool ](v: &serde_json::Value) -> (r: Option<bool>)
    ensures
        r == json(*v).as_bool(),
;

/// `serde_json::Value::as_u64` returns the number of a whole value that is not
/// negative, and `None` for every other value.
pub assume_specification[ serde_json::Value::as_u64 ](v: &serde_json::Value) -> (r: Option<u64>)
    ensures
        r == json(*v).as_u64(),
;

/// `serde_json::Value::as_array` lends the elements of an array value, and
/// returns `None` for every other value.
pub assume_specification[ serde_json::Value::as_array ](v: &serde_json::Value) -> (r: Option<
    &Vec<serde_json::Value>,
>)
    ensures
        match r {
            Some(a) => json(*v) == Json::Array(json_seq(a@)),
            None => json(*v).as_array() is None,
        },
;

/// `serde_json::Value::as_object` lends the entries of an object value, and
/// returns `None` for every other value.
pub assume_specification[ serde_json::Value::as_object ](v: &serde_json::Value) -> (r: Option<
    &serde_json::Map<String, serde_json::Value>,
>)
    ensures
        match r {
            Some(m) => json(*v) == Json::Object(entries(*m)),
            None => json(*v).as_object() is None,
        },
;

/// A clone of a `serde_json::Value` holds what the value holds.
pub assume_specification[ <serde_json::Value as Clone>::clone ](v: &serde_json::Value) -> (r:
    serde_json::Value)
    ensures
        json(r) == json(*v),
;

/// A clone of a `serde_json::Map` holds what the map holds.
pub assume_specification[ <serde_json::Map<String, serde_json::Value> as Clone>::clone ](
    m: &serde_json::Map<String, serde_json::Value>,
) -> (r: serde_json::Map<String, serde_json::Value>)
    ensures
        entries(r) == entries(*m),
;

/// `serde_json::Map::new` makes a map without entries.
pub assume_specification[ serde_json::Map::<String, serde_json::Value>::new ]() -> (m:
    serde_json::Map<String, serde_json::Value>)
    ensures
        entries(m) == no_entries(),
;

/// `serde_json::Map::insert` puts the value under the key, in place of the
/// value that was there.
pub assume_specification[ serde_json::Map::<String, serde_json::Value>::insert ](
    m: &mut serde_json::Map<String, serde_json::Value>,
    k: String,
    v: serde_json::Value,
) -> (r: Option<serde_json::Value>)
    ensures
        entries(*final(m)) == entries(*old(m)).insert(k@, json(v)),
        match r {
            Some(was) => lookup(entries(*old(m)), k@) == Some(json(was)),
            None => lookup(entries(*old(m)), k@) is None,
        },
;

/// `serde_json::Map::get` lends the value under the key, and returns `None`
/// where the map has no such key.
#[verifier::external_body]
pub(crate) fn map_get<'a>(m: &'a JsonMap<String, Value>, key: &str) -> (r: Option<&'a Value>)
    ensures
        value_view(r) == lookup(entries(*m), key@),
{
    m.get(key)
}

/// `serde_json::Value::from` of a `String` is the string value with that text.
#[verifier::external_body]
pub(crate) fn string_value(s: String) -> (v: Value)
    ensures
        json(v) == Json::Str(s@),
{
    Value::from(s)
}

/// `serde_json::Value::from` of a `bool` is that truth value.
#[verifier::external_body]
pub(crate) fn bool_value(b: bool) -> (v: Value)
    ensures
        json(v) == Json::Bool(b),
{
    Value::from(b)
}

/// `serde_json::Value::from` of a `u64` is that number.
#[verifier::external_body]
pub(crate) fn u64_value(n: u64) -> (v: Value)
    ensures
        json(v) == Json::Unsigned(n),
{
    Value::from(n)
}

/// `serde_json::Value::from` of `()` is null.
#[verifier::external_body]
pub(crate) fn null_value() -> (v: Value)
    ensures
        json(v) == Json::Null,
{
    Value::from(())
}

/// `serde_json::Value::from` of a vector of values is the array of those values.
#[verifier::external_body]
pub(crate) fn array_value(a: Vec<Value>) -> (v: Value)
    ensures
        json(v) == Json::Array(json_seq(a@)),
{
    Value::from(a)
}

/// `serde_json::Value::from` of a map is the object with the entries of the map.
#[verifier::external_body]
pub(crate) fn object_value(m: JsonMap<String, Value>) -> (v: Value)
    ensures
        json(v) == Json::Object(entries(m)),
{
    Value::from(m)
}

/// `serde_json::Value::to_string` prints a value. What it prints depends on
/// nothing but what the value holds, and has no line feed: one inside a string
/// is printed as an escape.
#[verifier::external_body]
pub(crate) fn value_text(v: &Value) -> (r: String)
    ensures
        r@ == json_text(json(*v)),
        !r@.contains('\n'),
{
    v.to_string()
}

/// `serde_json::from_str` reads a whole text as one value. An error is handed
/// on as its message.
#[verifier::external_body]
pub(crate) fn value_from_str(text: &str) -> (r: Result<Value, String>)
    ensures
        match r {
            Ok(v) => json_from_str(text@) == Ok::<Json, Seq<char>>(json(v)),
            Err(e) => json_from_str(text@) == Err::<Json, Seq<char>>(e@),
        },
{
    match serde_json::from_str(text) {
        Ok(v) => Ok(v),
        Err(e) => Err(e.to_string()),
    }
}

/// `serde_json::from_slice` reads a whole byte string as one value. An error is
/// handed on as its message.
#[verifier::external_body]
pub(crate) fn value_from_slice(bytes: &[u8]) -> (r: Result<Value, String>)
    ensures
        match r {
            Ok(v) => json_from_slice(bytes@) == Ok::<Json, Seq<char>>(json(v)),
            Err(e) => json_from_slice(bytes@) == Err::<Json, Seq<char>>(e@),
        },
{
    match serde_json::from_slice(bytes) {
        Ok(v) => Ok(v),
        Err(e) => Err(e.to_string()),
    }
}

/// What a longer sequence of values holds.
pub proof fn lemma_json_seq_push(s: Seq<Value>, v: Value)
    ensures
        json_seq(s.push(v)) == json_seq(s).push(json(v)),
{
    assert(json_seq(s.push(v)) =~= json_seq(s).push(json(v)));
}

/// Lends the member of an object value under `key`.
pub fn get<'a>(v: &'a Value, key: &str) -> (r: Option<&'a Value>)
    ensures
        value_view(r) == json(*v).get(key@),
{
    match v.as_object() {
        Some(m) => map_get(m, key),
        None => None,
    }
}

/// Lends the text of the entry of `m` under `key`, where it is a string.
pub fn text_entry<'a>(m: &'a JsonMap<String, Value>, key: &str) -> (r: Option<&'a str>)
    ensures
        str_view(r) == text_of(lookup(entries(*m), key@)),
{
    match map_get(m, key) {
        Some(v) => v.as_str(),
        None => None,
    }
}

/// Lends the text of the member of an object value under `key`, where it is a
/// string.
pub fn text_member<'a>(v: &'a Value, key: &str) -> (r: Option<&'a str>)
    ensures
        str_view(r) == text_of(json(*v).get(key@)),
{
    match get(v, key) {
        Some(j) => j.as_str(),
        None => None,
    }
}

/// Lends the member of `v` under `key`, where `v` is there and is an object.
pub fn member<'a>(v: Option<&'a Value>, key: &str) -> (r: Option<&'a Value>)
    ensures
        value_view(r) == member_of(value_view(v), key@),
{
    match v {
        Some(j) => get(j, key),
        None => None,
    }
}

/// Lends the text of the member of `v` under `key`, where `v` is there and is an
/// object, and the member is a string.
pub fn text_at<'a>(v: Option<&'a Value>, key: &str) -> (r: Option<&'a str>)
    ensures
        str_view(r) == text_of(member_of(value_view(v), key@)),
{
    match member(v, key) {
        Some(j) => j.as_str(),
        None => None,
    }
}

/// Lends the elements of `v`, where `v` is there and is an array.
pub fn elements<'a>(v: Option<&'a Value>) -> (r: Option<&'a Vec<Value>>)
    ensures
        match r {
            Some(a) => array_of(value_view(v)) == Some(json_seq(a@)),
            None => array_of(value_view(v)) is None,
        },
{
    match v {
        Some(j) => j.as_array(),
        None => None,
    }
}

/// Puts `v` under `key`.
pub fn put(m: &mut JsonMap<String, Value>, key: &str, v: Value)
    ensures
        entries(*final(m)) == entries(*old(m)).insert(key@, json(v)),
{
    let _ = m.insert(key.to_string(), v);
}

/// The string value with a given text.
pub fn text_value(s: &str) -> (v: Value)
    ensures
        json(v) == Json::Str(s@),
{
    string_value(s.to_string())
}

} // verus!
