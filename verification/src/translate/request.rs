//! Translation of a Responses request into a Chat Completions request.
//!
//! The model that the client asks for is replaced by the backend's; the name
//! that the client used is handed back, so that the events of the answer can
//! carry it. Fields that only the Responses API knows are left out.

use crate::json::array_value;
use crate::json::bool_value;
use crate::json::entries;
use crate::json::get;
use crate::json::json;
use crate::json::json_seq;
use crate::json::json_text;
use crate::json::lemma_json_seq_push;
use crate::json::lookup;
use crate::json::map_get;
use crate::json::no_entries;
use crate::json::null_value;
use crate::json::object_value;
use crate::json::put;
use crate::json::text_entry;
use crate::json::text_member;
use crate::json::text_of;
use crate::json::text_value;
use crate::json::value_text;
use crate::json::value_view;
use crate::json::with_entry;
use crate::json::Json;
use crate::text::blank;
use crate::text::is_blank;
use crate::text::joined;
use crate::text::str_eq;
use crate::translate::items::empty_array;
use crate::translate::items::make_text_part;
use crate::translate::stream_model::text_part;
use serde_json::Map as JsonMap;
use serde_json::Value;
use vstd::prelude::*;
use vstd::string::StringExecFns;

verus! {

/// Why a request cannot be translated.
#[derive(Debug, Clone, Copy, PartialEq, Eq, Structural)]
pub enum TranslateError {
    /// The body of the request is not a JSON object.
    NotAnObject,
}

impl TranslateError {
    /// What the error says.
    pub open spec fn text(self) -> Seq<char> {
        match self {
            TranslateError::NotAnObject => "responses request body must be a JSON object"@,
        }
    }

    /// Says what went wrong.
    pub fn message(&self) -> (r: String)
        ensures
            r@ == self.text(),
    {
        match self {
            TranslateError::NotAnObject => "responses request body must be a JSON object".to_string(),
        }
    }
}

/// `s`, or `default` where there is no `s`.
pub open spec fn text_or(s: Option<Seq<char>>, default: Seq<char>) -> Seq<char> {
    match s {
        Some(t) => t,
        None => default,
    }
}

// ---------------------------------------------------------------------------
// Content

/// The type of a piece of content.
pub open spec fn kind_of(part: Json) -> Seq<char> {
    text_or(text_of(part.get("type"@)), ""@)
}

/// Whether a piece of content is text.
pub open spec fn is_text_kind(kind: Seq<char>) -> bool {
    kind == "input_text"@ || kind == "output_text"@ || kind == "text"@
}

/// Whether a piece of content is an image.
pub open spec fn is_image(part: Json) -> bool {
    kind_of(part) == "input_image"@
}

/// The text in a piece of content.
pub open spec fn part_text(part: Json) -> Option<Seq<char>> {
    if is_text_kind(kind_of(part)) {
        text_of(part.get("text"@))
    } else {
        None
    }
}

/// An image as the chat API takes it.
pub open spec fn image_part(url: Seq<char>) -> Json {
    Json::Object(
        map![
            "type"@ => Json::Str("image_url"@),
            "image_url"@ => Json::Object(map!["url"@ => Json::Str(url)]),
        ],
    )
}

/// A piece of content as the chat API takes it; `None` for a piece that the
/// chat API cannot take.
pub open spec fn chat_part(part: Json) -> Option<Json> {
    if is_text_kind(kind_of(part)) {
        match text_of(part.get("text"@)) {
            Some(t) => Some(text_part("text"@, t)),
            None => None,
        }
    } else if is_image(part) {
        match text_of(part.get("image_url"@)) {
            Some(url) => Some(image_part(url)),
            None => None,
        }
    } else {
        None
    }
}

/// Whether there is an image among pieces of content.
pub open spec fn has_image(parts: Seq<Json>) -> bool {
    exists|i: int| 0 <= i < parts.len() && is_image(#[trigger] parts[i])
}

/// The content of a chat message: the texts, joined by line feeds, where there
/// is no image; else the pieces, one by one. A content that is neither a string
/// nor an array is given as its JSON text.
pub open spec fn chat_content(content: Option<Json>) -> Json {
    match content {
        None => Json::Str(""@),
        Some(Json::Str(s)) => Json::Str(s),
        Some(Json::Array(parts)) => if has_image(parts) {
            Json::Array(parts.filter_map(|p: Json| chat_part(p)))
        } else {
            Json::Str(joined(parts.filter_map(|p: Json| part_text(p)), "\n"@))
        },
        Some(other) => Json::Str(json_text(other)),
    }
}

/// Tells the type of a piece of content.
fn part_kind(part: &Value) -> (r: &str)
    ensures
        r@ == kind_of(json(*part)),
{
    match text_member(part, "type") {
        Some(kind) => kind,
        None => "",
    }
}

fn text_kind(kind: &str) -> (r: bool)
    ensures
        r == is_text_kind(kind@),
{
    str_eq(kind, "input_text") || str_eq(kind, "output_text") || str_eq(kind, "text")
}

fn make_image_part(url: &str) -> (v: Value)
    ensures
        json(v) == image_part(url@),
{
    let mut image = JsonMap::new();
    put(&mut image, "url", text_value(url));
    let mut m = JsonMap::new();
    put(&mut m, "type", text_value("image_url"));
    put(&mut m, "image_url", object_value(image));
    object_value(m)
}

fn make_chat_part(part: &Value) -> (r: Option<Value>)
    ensures
        match r {
            Some(v) => chat_part(json(*part)) == Some(json(v)),
            None => chat_part(json(*part)) is None,
        },
{
    let kind = part_kind(part);
    if text_kind(kind) {
        match text_member(part, "text") {
            Some(t) => Some(make_text_part("text", t)),
            None => None,
        }
    } else if str_eq(kind, "input_image") {
        match text_member(part, "image_url") {
            Some(url) => Some(make_image_part(url)),
            None => None,
        }
    } else {
        None
    }
}

/// The pieces of content that the chat API can take.
fn make_chat_parts(parts: &Vec<Value>) -> (r: Vec<Value>)
    ensures
        json_seq(r@) == json_seq(parts@).filter_map(|p: Json| chat_part(p)),
{
    let ghost all = json_seq(parts@);
    let ghost f = |p: Json| chat_part(p);
    let mut out: Vec<Value> = Vec::new();
    let mut i: usize = 0;
    proof {
        assert(json_seq(out@) =~= all.take(0).filter_map(f));
    }
    while i < parts.len()
        invariant
            i <= parts.len(),
            all == json_seq(parts@),
            f == (|p: Json| chat_part(p)),
            json_seq(out@) == all.take(i as int).filter_map(f),
        decreases parts.len() - i,
    {
        let part = make_chat_part(&parts[i]);
        proof {
            all.lemma_filter_map_take_succ(f, i as int);
        }
        match part {
            Some(v) => {
                proof {
                    lemma_json_seq_push(out@, v);
                    assert(json_seq(out@).push(json(v)) =~= json_seq(out@) + seq![json(v)]);
                }
                out.push(v);
            },
            None => {
                proof {
                    assert(json_seq(out@) + Seq::<Json>::empty() =~= json_seq(out@));
                }
            },
        }
        i = i + 1;
    }
    proof {
        assert(all.take(i as int) =~= all);
    }
    out
}

/// Tells whether there is an image among pieces of content.
fn any_image(parts: &Vec<Value>) -> (r: bool)
    ensures
        r == has_image(json_seq(parts@)),
{
    let mut i: usize = 0;
    while i < parts.len()
        invariant
            i <= parts.len(),
            forall|j: int| 0 <= j < i ==> !is_image(#[trigger] json_seq(parts@)[j]),
        decreases parts.len() - i,
    {
        if str_eq(part_kind(&parts[i]), "input_image") {
            proof {
                assert(is_image(json_seq(parts@)[i as int]));
            }
            return true;
        }
        i = i + 1;
    }
    false
}

proof fn lemma_joined_push(parts: Seq<Seq<char>>, t: Seq<char>, separator: Seq<char>)
    ensures
        joined(parts + seq![t], separator) == if parts.len() == 0 {
            t
        } else {
            joined(parts, separator) + separator + t
        },
{
    let longer = parts + seq![t];
    assert(longer.drop_last() =~= parts);
    assert(longer.last() == t);
}

/// The texts among pieces of content, joined by line feeds.
fn join_texts(parts: &Vec<Value>) -> (r: String)
    ensures
        r@ == joined(json_seq(parts@).filter_map(|p: Json| part_text(p)), "\n"@),
{
    let ghost all = json_seq(parts@);
    let ghost f = |p: Json| part_text(p);
    let mut out = String::new();
    let mut first = true;
    let mut i: usize = 0;
    proof {
        assert(all.take(0).filter_map(f) =~= Seq::<Seq<char>>::empty());
    }
    while i < parts.len()
        invariant
            i <= parts.len(),
            all == json_seq(parts@),
            f == (|p: Json| part_text(p)),
            first == (all.take(i as int).filter_map(f).len() == 0),
            out@ == joined(all.take(i as int).filter_map(f), "\n"@),
        decreases parts.len() - i,
    {
        let part = &parts[i];
        let ghost before = all.take(i as int).filter_map(f);
        proof {
            all.lemma_filter_map_take_succ(f, i as int);
            assert(before + Seq::<Seq<char>>::empty() =~= before);
        }
        if text_kind(part_kind(part)) {
            match text_member(part, "text") {
                Some(t) => {
                    proof {
                        lemma_joined_push(before, t@, "\n"@);
                        assert(Seq::<char>::empty() + t@ =~= t@);
                    }
                    if first {
                        first = false;
                    } else {
                        out.append("\n");
                    }
                    out.append(t);
                },
                None => {},
            }
        }
        i = i + 1;
    }
    proof {
        assert(all.take(i as int) =~= all);
    }
    out
}

/// Makes the content of a chat message.
pub fn build_chat_content(content: Option<&Value>) -> (r: Value)
    ensures
        json(r) == chat_content(value_view(content)),
{
    match content {
        None => text_value(""),
        Some(v) => match v.as_str() {
            Some(s) => text_value(s),
            None => match v.as_array() {
                Some(parts) => {
                    if any_image(parts) {
                        array_value(make_chat_parts(parts))
                    } else {
                        text_value(join_texts(parts).as_str())
                    }
                },
                None => text_value(value_text(v).as_str()),
            },
        },
    }
}

/// The content of a chat message as one text: a content with images is given as
/// its JSON text.
pub open spec fn content_text(content: Option<Json>) -> Seq<char> {
    match chat_content(content) {
        Json::Str(s) => s,
        other => json_text(other),
    }
}

/// Makes the content of a chat message as one text.
pub fn message_content_to_string(content: Option<&Value>) -> (r: String)
    ensures
        r@ == content_text(value_view(content)),
{
    let v = build_chat_content(content);
    match v.as_str() {
        Some(s) => s.to_string(),
        None => value_text(&v),
    }
}

// ---------------------------------------------------------------------------
// Messages

/// A chat message with a role and a content.
pub open spec fn chat_message(role: Seq<char>, content: Json) -> Json {
    Json::Object(map!["role"@ => Json::Str(role), "content"@ => content])
}

/// An earlier tool call as the chat API takes it.
pub open spec fn chat_tool_call(item: Map<Seq<char>, Json>) -> Json {
    Json::Object(
        map![
            "id"@ => Json::Str(text_or(text_of(lookup(item, "call_id"@)), "call"@)),
            "type"@ => Json::Str("function"@),
            "function"@ => Json::Object(map![
                "name"@ => Json::Str(text_or(text_of(lookup(item, "name"@)), ""@)),
                "arguments"@ => Json::Str(text_or(text_of(lookup(item, "arguments"@)), "{}"@)),
            ]),
        ],
    )
}

/// The output of an earlier tool call: a string as it is, any other value as its
/// JSON text.
pub open spec fn tool_output(output: Option<Json>) -> Seq<char> {
    match output {
        Some(Json::Str(s)) => s,
        Some(other) => json_text(other),
        None => ""@,
    }
}

/// The message with the output of an earlier tool call.
pub open spec fn tool_message(item: Map<Seq<char>, Json>) -> Json {
    Json::Object(
        map![
            "role"@ => Json::Str("tool"@),
            "tool_call_id"@ => Json::Str(text_or(text_of(lookup(item, "call_id"@)), ""@)),
            "content"@ => Json::Str(tool_output(lookup(item, "output"@))),
        ],
    )
}

/// The message of the assistant that makes tool calls.
pub open spec fn assistant_message(calls: Seq<Json>) -> Json {
    Json::Object(
        map![
            "role"@ => Json::Str("assistant"@),
            "tool_calls"@ => Json::Array(calls),
            "content"@ => Json::Null,
        ],
    )
}

/// A conversation that has been read so far.
pub struct History {
    /// The messages that are complete.
    pub messages: Seq<Json>,
    /// Tool calls that the next message will hold.
    pub calls: Seq<Json>,
}

/// The messages, with one for the tool calls that wait, if any.
pub open spec fn flushed(h: History) -> Seq<Json> {
    if h.calls.len() == 0 {
        h.messages
    } else {
        h.messages.push(assistant_message(h.calls))
    }
}

/// The conversation with one more item. Tool calls in a row are gathered into
/// one message; a message or the output of a tool call comes after it.
pub open spec fn with_item(h: History, item: Json) -> History {
    match item {
        Json::Object(o) => {
            let kind = text_or(text_of(lookup(o, "type"@)), ""@);
            if kind == "message"@ {
                History {
                    messages: flushed(h).push(
                        chat_message(
                            text_or(text_of(lookup(o, "role"@)), "user"@),
                            chat_content(lookup(o, "content"@)),
                        ),
                    ),
                    calls: Seq::empty(),
                }
            } else if kind == "function_call"@ {
                History { messages: h.messages, calls: h.calls.push(chat_tool_call(o)) }
            } else if kind == "function_call_output"@ {
                History { messages: flushed(h).push(tool_message(o)), calls: Seq::empty() }
            } else {
                h
            }
        },
        _ => h,
    }
}

/// The conversation that the items make, after `h`.
pub open spec fn with_items(h: History, items: Seq<Json>) -> History
    decreases items.len(),
{
    if items.len() == 0 {
        h
    } else {
        with_item(with_items(h, items.drop_last()), items.last())
    }
}

/// The messages that come before the conversation.
pub open spec fn system_messages(instructions: Seq<char>) -> Seq<Json> {
    if is_blank(instructions) {
        Seq::empty()
    } else {
        seq![chat_message("system"@, Json::Str(instructions))]
    }
}

/// The messages of a chat request: the instructions, unless they are blank, and
/// the conversation.
pub open spec fn chat_messages(instructions: Seq<char>, input: Json) -> Seq<Json> {
    let first = system_messages(instructions);
    match input {
        Json::Array(items) => flushed(
            with_items(History { messages: first, calls: Seq::empty() }, items),
        ),
        Json::Str(s) => first.push(chat_message("user"@, Json::Str(s))),
        _ => first,
    }
}

fn make_message(role: &str, content: Value) -> (v: Value)
    ensures
        json(v) == chat_message(role@, json(content)),
{
    let mut m = JsonMap::new();
    put(&mut m, "role", text_value(role));
    put(&mut m, "content", content);
    object_value(m)
}

/// Lends the text of an entry, or `default` where it is not a string.
fn entry_or<'a>(m: &'a JsonMap<String, Value>, key: &str, default: &'a str) -> (r: &'a str)
    ensures
        r@ == text_or(text_of(lookup(entries(*m), key@)), default@),
{
    match text_entry(m, key) {
        Some(s) => s,
        None => default,
    }
}

fn make_tool_call(item: &JsonMap<String, Value>) -> (v: Value)
    ensures
        json(v) == chat_tool_call(entries(*item)),
{
    let mut function = JsonMap::new();
    put(&mut function, "name", text_value(entry_or(item, "name", "")));
    put(&mut function, "arguments", text_value(entry_or(item, "arguments", "{}")));
    let mut m = JsonMap::new();
    put(&mut m, "id", text_value(entry_or(item, "call_id", "call")));
    put(&mut m, "type", text_value("function"));
    put(&mut m, "function", object_value(function));
    object_value(m)
}

fn make_tool_message(item: &JsonMap<String, Value>) -> (v: Value)
    ensures
        json(v) == tool_message(entries(*item)),
{
    let output = match map_get(item, "output") {
        Some(v) => match v.as_str() {
            Some(s) => s.to_string(),
            None => value_text(v),
        },
        None => "".to_string(),
    };
    let mut m = JsonMap::new();
    put(&mut m, "role", text_value("tool"));
    put(&mut m, "tool_call_id", text_value(entry_or(item, "call_id", "")));
    put(&mut m, "content", text_value(output.as_str()));
    object_value(m)
}

fn make_assistant_message(calls: Vec<Value>) -> (v: Value)
    ensures
        json(v) == assistant_message(json_seq(calls@)),
{
    let mut m = JsonMap::new();
    put(&mut m, "role", text_value("assistant"));
    put(&mut m, "tool_calls", array_value(calls));
    put(&mut m, "content", null_value());
    object_value(m)
}

/// Adds a value at the end.
fn push_value(out: &mut Vec<Value>, v: Value)
    ensures
        json_seq(final(out)@) == json_seq(old(out)@).push(json(v)),
{
    proof {
        lemma_json_seq_push(out@, v);
    }
    out.push(v);
}

/// The messages and the waiting tool calls of a conversation.
struct HistoryBuilder {
    messages: Vec<Value>,
    calls: Vec<Value>,
}

impl View for HistoryBuilder {
    type V = History;

    closed spec fn view(&self) -> History {
        History { messages: json_seq(self.messages@), calls: json_seq(self.calls@) }
    }
}

impl HistoryBuilder {
    fn flush(&mut self)
        ensures
            final(self)@.messages == flushed(old(self)@),
            final(self)@.calls == Seq::<Json>::empty(),
    {
        if self.calls.len() > 0 {
            let mut calls: Vec<Value> = Vec::new();
            std::mem::swap(&mut calls, &mut self.calls);
            push_value(&mut self.messages, make_assistant_message(calls));
        }
        proof {
            assert(json_seq(self.calls@) =~= Seq::<Json>::empty());
        }
    }

    fn add(&mut self, item: &Value)
        ensures
            final(self)@ == with_item(old(self)@, json(*item)),
    {
        let obj = match item.as_object() {
            Some(o) => o,
            None => {
                return;
            },
        };
        let kind = entry_or(obj, "type", "");
        if str_eq(kind, "message") {
            self.flush();
            let content = build_chat_content(map_get(obj, "content"));
            push_value(&mut self.messages, make_message(entry_or(obj, "role", "user"), content));
        } else if str_eq(kind, "function_call") {
            push_value(&mut self.calls, make_tool_call(obj));
        } else if str_eq(kind, "function_call_output") {
            self.flush();
            push_value(&mut self.messages, make_tool_message(obj));
        }
    }
}

/// Makes the messages of a chat request.
pub fn build_chat_messages(instructions: &str, input: &Value) -> (r: Vec<Value>)
    ensures
        json_seq(r@) == chat_messages(instructions@, json(*input)),
{
    let mut history = HistoryBuilder { messages: Vec::new(), calls: Vec::new() };
    proof {
        assert(json_seq(history.messages@) =~= Seq::<Json>::empty());
        assert(json_seq(history.calls@) =~= Seq::<Json>::empty());
        assert(Seq::<Json>::empty().push(chat_message("system"@, Json::Str(instructions@)))
            =~= seq![chat_message("system"@, Json::Str(instructions@))]);
    }
    if !blank(instructions) {
        push_value(&mut history.messages, make_message("system", text_value(instructions)));
    }
    let ghost start = history@;
    match input.as_array() {
        Some(items) => {
            let mut i: usize = 0;
            proof {
                assert(json_seq(items@).take(0) =~= Seq::<Json>::empty());
            }
            while i < items.len()
                invariant
                    i <= items.len(),
                    history@ == with_items(start, json_seq(items@).take(i as int)),
                decreases items.len() - i,
            {
                proof {
                    let all = json_seq(items@);
                    assert(all.take(i + 1).drop_last() =~= all.take(i as int));
                    assert(all.take(i + 1).last() == json(items@[i as int]));
                }
                history.add(&items[i]);
                i = i + 1;
            }
            proof {
                assert(json_seq(items@).take(i as int) =~= json_seq(items@));
            }
            history.flush();
        },
        None => match input.as_str() {
            Some(s) => {
                push_value(&mut history.messages, make_message("user", text_value(s)));
            },
            None => {},
        },
    }
    history.messages
}

// ---------------------------------------------------------------------------
// Tools

/// What a tool definition says of its function: in a nested object where it has
/// one, else itself.
pub open spec fn function_entries(tool: Map<Seq<char>, Json>) -> Map<Seq<char>, Json> {
    match lookup(tool, "function"@) {
        Some(Json::Object(f)) => f,
        _ => tool,
    }
}

/// The function of a tool as the chat API takes it.
pub open spec fn chat_function(name: Seq<char>, f: Map<Seq<char>, Json>) -> Json {
    let parameters = match lookup(f, "parameters"@) {
        Some(p) => p,
        None => Json::Object(no_entries()),
    };
    let required = map!["name"@ => Json::Str(name), "parameters"@ => parameters];
    Json::Object(
        match text_of(lookup(f, "description"@)) {
            Some(d) => required.insert("description"@, Json::Str(d)),
            None => required,
        },
    )
}

/// A tool definition as the chat API takes it; `None` for a tool that is no
/// function or has no name.
pub open spec fn chat_tool(tool: Json) -> Option<Json> {
    match tool {
        Json::Object(o) => {
            let f = function_entries(o);
            let name = text_of(lookup(f, "name"@));
            if text_or(text_of(lookup(o, "type"@)), "function"@) == "function"@ && name is Some {
                Some(
                    Json::Object(
                        map![
                            "type"@ => Json::Str("function"@),
                            "function"@ => chat_function(name->0, f),
                        ],
                    ),
                )
            } else {
                None
            }
        },
        _ => None,
    }
}

/// The tools of a request as the chat API takes them.
pub open spec fn chat_tools(tools: Option<Json>) -> Seq<Json> {
    match tools {
        Some(Json::Array(a)) => a.filter_map(|t: Json| chat_tool(t)),
        _ => Seq::empty(),
    }
}

/// The choice of a tool as the chat API takes it; `None` for a choice that the
/// chat API cannot take.
pub open spec fn chat_tool_choice(choice: Option<Json>) -> Option<Json> {
    match choice {
        Some(Json::Str(s)) => Some(Json::Str(s)),
        Some(Json::Object(o)) => if text_of(lookup(o, "type"@)) == Some("function"@) {
            Some(
                Json::Object(
                    map![
                        "type"@ => Json::Str("function"@),
                        "function"@ => Json::Object(match text_of(lookup(o, "name"@)) {
                            Some(name) => map!["name"@ => Json::Str(name)],
                            None => no_entries(),
                        }),
                    ],
                ),
            )
        } else {
            None
        },
        _ => None,
    }
}

/// Makes a tool definition for the chat API.
pub fn translate_tool_definition(tool: &Value) -> (r: Option<Value>)
    ensures
        match r {
            Some(v) => chat_tool(json(*tool)) == Some(json(v)),
            None => chat_tool(json(*tool)) is None,
        },
{
    let obj = match tool.as_object() {
        Some(o) => o,
        None => {
            return None;
        },
    };
    if !str_eq(entry_or(obj, "type", "function"), "function") {
        return None;
    }
    let f = match map_get(obj, "function") {
        Some(v) => match v.as_object() {
            Some(f) => f,
            None => obj,
        },
        None => obj,
    };
    let name = match text_entry(f, "name") {
        Some(name) => name,
        None => {
            return None;
        },
    };
    let parameters = match map_get(f, "parameters") {
        Some(p) => p.clone(),
        None => object_value(JsonMap::new()),
    };
    let mut function = JsonMap::new();
    put(&mut function, "name", text_value(name));
    put(&mut function, "parameters", parameters);
    match text_entry(f, "description") {
        Some(d) => {
            put(&mut function, "description", text_value(d));
        },
        None => {},
    }
    let mut out = JsonMap::new();
    put(&mut out, "type", text_value("function"));
    put(&mut out, "function", object_value(function));
    Some(object_value(out))
}

fn make_tools(tools: Option<&Value>) -> (r: Vec<Value>)
    ensures
        json_seq(r@) == chat_tools(value_view(tools)),
{
    let mut out: Vec<Value> = Vec::new();
    proof {
        assert(json_seq(out@) =~= Seq::<Json>::empty());
    }
    let list = match tools {
        Some(v) => match v.as_array() {
            Some(a) => a,
            None => {
                return out;
            },
        },
        None => {
            return out;
        },
    };
    let ghost all = json_seq(list@);
    let ghost f = |t: Json| chat_tool(t);
    let mut i: usize = 0;
    proof {
        assert(json_seq(out@) =~= all.take(0).filter_map(f));
    }
    while i < list.len()
        invariant
            i <= list.len(),
            all == json_seq(list@),
            f == (|t: Json| chat_tool(t)),
            json_seq(out@) == all.take(i as int).filter_map(f),
        decreases list.len() - i,
    {
        let tool = translate_tool_definition(&list[i]);
        proof {
            all.lemma_filter_map_take_succ(f, i as int);
            assert(json_seq(out@) + Seq::<Json>::empty() =~= json_seq(out@));
        }
        match tool {
            Some(v) => {
                proof {
                    assert(json_seq(out@).push(json(v)) =~= json_seq(out@) + seq![json(v)]);
                }
                push_value(&mut out, v);
            },
            None => {},
        }
        i = i + 1;
    }
    proof {
        assert(all.take(i as int) =~= all);
    }
    out
}

fn make_tool_choice(choice: Option<&Value>) -> (r: Option<Value>)
    ensures
        match r {
            Some(v) => chat_tool_choice(value_view(choice)) == Some(json(v)),
            None => chat_tool_choice(value_view(choice)) is None,
        },
{
    let choice = match choice {
        Some(c) => c,
        None => {
            return None;
        },
    };
    match choice.as_str() {
        Some(s) => Some(text_value(s)),
        None => match choice.as_object() {
            Some(o) => {
                let is_function = match text_entry(o, "type") {
                    Some(t) => str_eq(t, "function"),
                    None => false,
                };
                if !is_function {
                    return None;
                }
                let mut function = JsonMap::new();
                match text_entry(o, "name") {
                    Some(name) => {
                        put(&mut function, "name", text_value(name));
                    },
                    None => {},
                }
                let mut nested = JsonMap::new();
                put(&mut nested, "type", text_value("function"));
                put(&mut nested, "function", object_value(function));
                Some(object_value(nested))
            },
            None => None,
        },
    }
}

// ---------------------------------------------------------------------------
// The request

/// The model that a request asks for.
pub open spec fn incoming_model(body: Json) -> Seq<char> {
    text_or(text_of(body.get("model"@)), "unknown"@)
}

/// The conversation of a request; none is the same as one without items.
pub open spec fn request_input(request: Map<Seq<char>, Json>) -> Json {
    match lookup(request, "input"@) {
        Some(input) => input,
        None => Json::Array(Seq::empty()),
    }
}

/// The entries of a chat request that are there whatever the request holds.
pub open spec fn basic_entries(
    request: Map<Seq<char>, Json>,
    backend_model: Seq<char>,
) -> Map<Seq<char>, Json> {
    let instructions = text_or(text_of(lookup(request, "instructions"@)), ""@);
    map![
        "model"@ => Json::Str(backend_model),
        "messages"@ => Json::Array(chat_messages(instructions, request_input(request))),
        "stream"@ => Json::Bool(true),
    ]
}

/// A chat request with the tools of a request. Without a tool there is no choice
/// of a tool either, nor a word on parallel calls.
pub open spec fn with_tools(
    chat: Map<Seq<char>, Json>,
    request: Map<Seq<char>, Json>,
) -> Map<Seq<char>, Json> {
    let tools = chat_tools(lookup(request, "tools"@));
    if tools.len() == 0 {
        chat
    } else {
        with_entry(
            with_entry(
                chat.insert("tools"@, Json::Array(tools)),
                "tool_choice"@,
                chat_tool_choice(lookup(request, "tool_choice"@)),
            ),
            "parallel_tool_calls"@,
            lookup(request, "parallel_tool_calls"@),
        )
    }
}

/// A chat request with the sampling parameters of a request, as they are.
pub open spec fn with_sampling(
    chat: Map<Seq<char>, Json>,
    request: Map<Seq<char>, Json>,
) -> Map<Seq<char>, Json> {
    with_entry(
        with_entry(
            with_entry(
                with_entry(chat, "temperature"@, lookup(request, "temperature"@)),
                "top_p"@,
                lookup(request, "top_p"@),
            ),
            "stop"@,
            lookup(request, "stop"@),
        ),
        "user"@,
        lookup(request, "user"@),
    )
}

/// The limit on the tokens of the answer, under either of its names.
pub open spec fn token_limit(request: Map<Seq<char>, Json>) -> Option<Json> {
    match lookup(request, "max_output_tokens"@) {
        Some(v) => Some(v),
        None => lookup(request, "max_tokens"@),
    }
}

/// The parameter that makes a model think.
pub open spec fn thinking_parameters() -> Json {
    Json::Object(map!["enable_thinking"@ => Json::Bool(true)])
}

/// The chat request for a request.
pub open spec fn chat_request(
    request: Map<Seq<char>, Json>,
    backend_model: Seq<char>,
    enable_thinking: bool,
) -> Map<Seq<char>, Json> {
    let chat = with_entry(
        with_sampling(with_tools(basic_entries(request, backend_model), request), request),
        "max_tokens"@,
        token_limit(request),
    );
    if enable_thinking {
        chat.insert("chat_template_kwargs"@, thinking_parameters())
    } else {
        chat
    }
}

/// Copies an entry of `from`, where it is there, under the name `to`.
fn copy_entry(
    chat: &mut JsonMap<String, Value>,
    to: &str,
    request: &JsonMap<String, Value>,
    from: &str,
)
    ensures
        entries(*final(chat)) == with_entry(
            entries(*old(chat)),
            to@,
            lookup(entries(*request), from@),
        ),
{
    match map_get(request, from) {
        Some(v) => {
            put(chat, to, v.clone());
        },
        None => {},
    }
}

fn put_tools(chat: &mut JsonMap<String, Value>, request: &JsonMap<String, Value>)
    ensures
        entries(*final(chat)) == with_tools(entries(*old(chat)), entries(*request)),
{
    let tools = make_tools(map_get(request, "tools"));
    if tools.len() == 0 {
        return;
    }
    put(chat, "tools", array_value(tools));
    match make_tool_choice(map_get(request, "tool_choice")) {
        Some(choice) => {
            put(chat, "tool_choice", choice);
        },
        None => {},
    }
    copy_entry(chat, "parallel_tool_calls", request, "parallel_tool_calls");
}

fn put_messages(chat: &mut JsonMap<String, Value>, request: &JsonMap<String, Value>)
    ensures
        entries(*final(chat)) == entries(*old(chat)).insert(
            "messages"@,
            Json::Array(
                chat_messages(
                    text_or(text_of(lookup(entries(*request), "instructions"@)), ""@),
                    request_input(entries(*request)),
                ),
            ),
        ),
{
    let instructions = entry_or(request, "instructions", "");
    let messages = match map_get(request, "input") {
        Some(input) => build_chat_messages(instructions, input),
        None => build_chat_messages(instructions, &empty_array()),
    };
    put(chat, "messages", array_value(messages));
}

/// Translates a Responses request into a Chat Completions request for
/// `backend_model`. The name of the model that the client asked for is handed
/// back with it.
pub fn translate_request(
    responses_body: &Value,
    backend_model: &str,
    enable_thinking: bool,
) -> (r: Result<(Value, String), TranslateError>)
    ensures
        match r {
            Ok((chat, model)) => {
                &&& json(*responses_body) is Object
                &&& json(chat) == Json::Object(
                    chat_request(
                        json(*responses_body)->Object_0,
                        backend_model@,
                        enable_thinking,
                    ),
                )
                &&& model@ == incoming_model(json(*responses_body))
            },
            Err(e) => e == TranslateError::NotAnObject && !(json(*responses_body) is Object),
        },
{
    let request = match responses_body.as_object() {
        Some(o) => o,
        None => {
            return Err(TranslateError::NotAnObject);
        },
    };
    let model = entry_or(request, "model", "unknown").to_string();

    let mut chat = JsonMap::new();
    put(&mut chat, "model", text_value(backend_model));
    put_messages(&mut chat, request);
    put(&mut chat, "stream", bool_value(true));
    put_tools(&mut chat, request);
    copy_entry(&mut chat, "temperature", request, "temperature");
    copy_entry(&mut chat, "top_p", request, "top_p");
    copy_entry(&mut chat, "stop", request, "stop");
    copy_entry(&mut chat, "user", request, "user");
    match map_get(request, "max_output_tokens") {
        Some(v) => {
            put(&mut chat, "max_tokens", v.clone());
        },
        None => {
            copy_entry(&mut chat, "max_tokens", request, "max_tokens");
        },
    }
    if enable_thinking {
        let mut thinking = JsonMap::new();
        put(&mut thinking, "enable_thinking", bool_value(true));
        put(&mut chat, "chat_template_kwargs", object_value(thinking));
    }
    Ok((object_value(chat), model))
}

} // verus!
