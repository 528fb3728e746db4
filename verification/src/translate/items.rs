//! The items of a response as JSON values.

use crate::json::array_value;
use crate::json::json;
use crate::json::json_seq;
use crate::json::object_value;
use crate::json::put;
use crate::json::text_value;
use crate::json::Json;
use crate::translate::stream_model::call_item;
use crate::translate::stream_model::message_added_item;
use crate::translate::stream_model::message_done_item;
use crate::translate::stream_model::reasoning_added_item;
use crate::translate::stream_model::reasoning_done_item;
use crate::translate::stream_model::text_part;
use crate::translate::stream_model::upstream_error;
use serde_json::Map as JsonMap;
use serde_json::Value;
use vstd::prelude::*;

verus! {

/// An array without elements.
pub fn empty_array() -> (v: Value)
    ensures
        json(v) == Json::Array(Seq::empty()),
{
    let a: Vec<Value> = Vec::new();
    proof {
        assert(json_seq(a@) =~= Seq::<Json>::empty());
    }
    array_value(a)
}

/// An array with one element.
pub fn array_of_one(v: Value) -> (r: Value)
    ensures
        json(r) == Json::Array(seq![json(v)]),
{
    let mut a: Vec<Value> = Vec::new();
    a.push(v);
    proof {
        assert(json_seq(a@) =~= seq![json(v)]);
    }
    array_value(a)
}

/// A piece of content of the kind `kind` with a text.
pub fn make_text_part(kind: &str, text: &str) -> (v: Value)
    ensures
        json(v) == text_part(kind@, text@),
{
    let mut m = JsonMap::new();
    put(&mut m, "type", text_value(kind));
    put(&mut m, "text", text_value(text));
    object_value(m)
}

pub fn make_reasoning_added(id: &str) -> (v: Value)
    ensures
        json(v) == reasoning_added_item(id@),
{
    let mut m = JsonMap::new();
    put(&mut m, "type", text_value("reasoning"));
    put(&mut m, "id", text_value(id));
    put(&mut m, "summary", empty_array());
    put(&mut m, "content", empty_array());
    put(&mut m, "status", text_value("in_progress"));
    object_value(m)
}

pub fn make_reasoning_done(id: &str, text: &str) -> (v: Value)
    ensures
        json(v) == reasoning_done_item(id@, text@),
{
    let mut m = JsonMap::new();
    put(&mut m, "type", text_value("reasoning"));
    put(&mut m, "id", text_value(id));
    put(&mut m, "summary", empty_array());
    put(&mut m, "content", array_of_one(make_text_part("reasoning_text", text)));
    put(&mut m, "status", text_value("completed"));
    object_value(m)
}

pub fn make_message_added(id: &str) -> (v: Value)
    ensures
        json(v) == message_added_item(id@),
{
    let mut m = JsonMap::new();
    put(&mut m, "type", text_value("message"));
    put(&mut m, "id", text_value(id));
    put(&mut m, "role", text_value("assistant"));
    put(&mut m, "status", text_value("in_progress"));
    put(&mut m, "content", empty_array());
    object_value(m)
}

pub fn make_message_done(id: &str, text: &str) -> (v: Value)
    ensures
        json(v) == message_done_item(id@, text@),
{
    let mut m = JsonMap::new();
    put(&mut m, "type", text_value("message"));
    put(&mut m, "id", text_value(id));
    put(&mut m, "role", text_value("assistant"));
    put(&mut m, "status", text_value("completed"));
    put(&mut m, "content", array_of_one(make_text_part("output_text", text)));
    object_value(m)
}

pub fn make_call(
    id: &str,
    call_id: &str,
    name: &str,
    arguments: &str,
    status: &str,
) -> (v: Value)
    ensures
        json(v) == call_item(id@, call_id@, name@, arguments@, status@),
{
    let mut m = JsonMap::new();
    put(&mut m, "type", text_value("function_call"));
    put(&mut m, "id", text_value(id));
    put(&mut m, "call_id", text_value(call_id));
    put(&mut m, "name", text_value(name));
    put(&mut m, "arguments", text_value(arguments));
    put(&mut m, "status", text_value(status));
    object_value(m)
}

pub fn make_upstream_error(message: &str) -> (v: Value)
    ensures
        json(v) == upstream_error(message@),
{
    let mut m = JsonMap::new();
    put(&mut m, "code", text_value("upstream_error"));
    put(&mut m, "message", text_value(message));
    object_value(m)
}

} // verus!
