//! What holds of every translated request.

use crate::json::lookup;
use crate::json::text_of;
use crate::json::Json;
use crate::translate::request::assistant_message;
use crate::translate::request::chat_content;
use crate::translate::request::chat_message;
use crate::translate::request::chat_request;
use crate::translate::request::chat_tool_call;
use crate::translate::request::flushed;
use crate::translate::request::has_image;
use crate::translate::request::text_or;
use crate::translate::request::thinking_parameters;
use crate::translate::request::token_limit;
use crate::translate::request::tool_message;
use crate::translate::request::with_item;
use crate::translate::request::with_items;
use crate::translate::request::History;
use vstd::prelude::*;

verus! {

/// The names of the fields of a chat request differ from one another.
pub proof fn lemma_field_names()
    ensures
        "model"@ != "messages"@,
        "model"@ != "stream"@,
        "model"@ != "tools"@,
        "model"@ != "tool_choice"@,
        "model"@ != "parallel_tool_calls"@,
        "model"@ != "temperature"@,
        "model"@ != "top_p"@,
        "model"@ != "stop"@,
        "model"@ != "user"@,
        "model"@ != "max_tokens"@,
        "model"@ != "chat_template_kwargs"@,
        "messages"@ != "stream"@,
        "messages"@ != "tools"@,
        "messages"@ != "tool_choice"@,
        "messages"@ != "parallel_tool_calls"@,
        "messages"@ != "temperature"@,
        "messages"@ != "top_p"@,
        "messages"@ != "stop"@,
        "messages"@ != "user"@,
        "messages"@ != "max_tokens"@,
        "messages"@ != "chat_template_kwargs"@,
        "stream"@ != "tools"@,
        "stream"@ != "tool_choice"@,
        "stream"@ != "parallel_tool_calls"@,
        "stream"@ != "temperature"@,
        "stream"@ != "top_p"@,
        "stream"@ != "stop"@,
        "stream"@ != "user"@,
        "stream"@ != "max_tokens"@,
        "stream"@ != "chat_template_kwargs"@,
        "tools"@ != "tool_choice"@,
        "tools"@ != "parallel_tool_calls"@,
        "tools"@ != "temperature"@,
        "tools"@ != "top_p"@,
        "tools"@ != "stop"@,
        "tools"@ != "user"@,
        "tools"@ != "max_tokens"@,
        "tools"@ != "chat_template_kwargs"@,
        "tool_choice"@ != "parallel_tool_calls"@,
        "tool_choice"@ != "temperature"@,
        "tool_choice"@ != "top_p"@,
        "tool_choice"@ != "stop"@,
        "tool_choice"@ != "user"@,
        "tool_choice"@ != "max_tokens"@,
        "tool_choice"@ != "chat_template_kwargs"@,
        "parallel_tool_calls"@ != "temperature"@,
        "parallel_tool_calls"@ != "top_p"@,
        "parallel_tool_calls"@ != "stop"@,
        "parallel_tool_calls"@ != "user"@,
        "parallel_tool_calls"@ != "max_tokens"@,
        "parallel_tool_calls"@ != "chat_template_kwargs"@,
        "temperature"@ != "top_p"@,
        "temperature"@ != "stop"@,
        "temperature"@ != "user"@,
        "temperature"@ != "max_tokens"@,
        "temperature"@ != "chat_template_kwargs"@,
        "top_p"@ != "stop"@,
        "top_p"@ != "user"@,
        "top_p"@ != "max_tokens"@,
        "top_p"@ != "chat_template_kwargs"@,
        "stop"@ != "user"@,
        "stop"@ != "max_tokens"@,
        "stop"@ != "chat_template_kwargs"@,
        "user"@ != "max_tokens"@,
        "user"@ != "chat_template_kwargs"@,
        "max_tokens"@ != "chat_template_kwargs"@,
{
    reveal_strlit("model");
    reveal_strlit("messages");
    reveal_strlit("stream");
    reveal_strlit("tools");
    reveal_strlit("tool_choice");
    reveal_strlit("parallel_tool_calls");
    reveal_strlit("temperature");
    reveal_strlit("top_p");
    reveal_strlit("stop");
    reveal_strlit("user");
    reveal_strlit("max_tokens");
    reveal_strlit("chat_template_kwargs");
    assert("model"@.len() == 5);
    assert("messages"@.len() == 8);
    assert("stream"@.len() == 6);
    assert("tools"@.len() == 5);
    assert("tool_choice"@.len() == 11);
    assert("parallel_tool_calls"@.len() == 19);
    assert("temperature"@.len() == 11);
    assert("top_p"@.len() == 5);
    assert("stop"@.len() == 4);
    assert("user"@.len() == 4);
    assert("max_tokens"@.len() == 10);
    assert("chat_template_kwargs"@.len() == 20);
    assert("model"@[0] == 'm' && "tools"@[0] == 't' && "top_p"@[0] == 't');
    assert("tools"@[2] == 'o' && "top_p"@[2] == 'p');
    assert("tool_choice"@[1] == 'o' && "temperature"@[1] == 'e');
    assert("stop"@[0] == 's' && "user"@[0] == 'u');
}

/// The fields that a chat request may have.
pub open spec fn chat_fields() -> Set<Seq<char>> {
    set![
        "model"@,
        "messages"@,
        "stream"@,
        "tools"@,
        "tool_choice"@,
        "parallel_tool_calls"@,
        "temperature"@,
        "top_p"@,
        "stop"@,
        "user"@,
        "max_tokens"@,
        "chat_template_kwargs"@,
    ]
}

/// Whatever the client asks for, the request goes to the backend's model, and
/// the answer is asked for as a stream.
pub proof fn backend_model_is_forced(
    request: Map<Seq<char>, Json>,
    backend_model: Seq<char>,
    enable_thinking: bool,
)
    ensures
        lookup(chat_request(request, backend_model, enable_thinking), "model"@) == Some(
            Json::Str(backend_model),
        ),
        lookup(chat_request(request, backend_model, enable_thinking), "stream"@) == Some(
            Json::Bool(true),
        ),
{
    lemma_field_names();
}

/// A chat request has no field but those that the chat API knows: no other field
/// of the client gets through.
pub proof fn only_chat_fields_are_forwarded(
    request: Map<Seq<char>, Json>,
    backend_model: Seq<char>,
    enable_thinking: bool,
)
    ensures
        chat_request(request, backend_model, enable_thinking).dom().subset_of(chat_fields()),
{
}

/// The fields that the client sends for its own provider do not get through.
pub proof fn client_fields_are_stripped(
    request: Map<Seq<char>, Json>,
    backend_model: Seq<char>,
    enable_thinking: bool,
)
    ensures
        ({
            let chat = chat_request(request, backend_model, enable_thinking);
            &&& !chat.contains_key("store"@)
            &&& !chat.contains_key("stream_options"@)
            &&& !chat.contains_key("include"@)
            &&& !chat.contains_key("service_tier"@)
            &&& !chat.contains_key("prompt_cache_key"@)
            &&& !chat.contains_key("text"@)
            &&& !chat.contains_key("client_metadata"@)
            &&& !chat.contains_key("previous_response_id"@)
            &&& !chat.contains_key("reasoning"@)
            &&& !chat.contains_key("reasoning_budget"@)
            &&& !chat.contains_key("web_search_options"@)
        }),
{
    reveal_strlit("model");
    reveal_strlit("messages");
    reveal_strlit("stream");
    reveal_strlit("tools");
    reveal_strlit("tool_choice");
    reveal_strlit("parallel_tool_calls");
    reveal_strlit("temperature");
    reveal_strlit("top_p");
    reveal_strlit("stop");
    reveal_strlit("user");
    reveal_strlit("max_tokens");
    reveal_strlit("chat_template_kwargs");
    reveal_strlit("store");
    reveal_strlit("stream_options");
    reveal_strlit("include");
    reveal_strlit("service_tier");
    reveal_strlit("prompt_cache_key");
    reveal_strlit("text");
    reveal_strlit("client_metadata");
    reveal_strlit("previous_response_id");
    reveal_strlit("reasoning");
    reveal_strlit("reasoning_budget");
    reveal_strlit("web_search_options");
    assert("model"@.len() == 5);
    assert("messages"@.len() == 8);
    assert("stream"@.len() == 6);
    assert("tools"@.len() == 5);
    assert("tool_choice"@.len() == 11);
    assert("parallel_tool_calls"@.len() == 19);
    assert("temperature"@.len() == 11);
    assert("top_p"@.len() == 5);
    assert("stop"@.len() == 4);
    assert("user"@.len() == 4);
    assert("max_tokens"@.len() == 10);
    assert("chat_template_kwargs"@.len() == 20);
    assert("store"@.len() == 5);
    assert("stream_options"@.len() == 14);
    assert("include"@.len() == 7);
    assert("service_tier"@.len() == 12);
    assert("prompt_cache_key"@.len() == 16);
    assert("text"@.len() == 4);
    assert("client_metadata"@.len() == 15);
    assert("previous_response_id"@.len() == 20);
    assert("reasoning"@.len() == 9);
    assert("reasoning_budget"@.len() == 16);
    assert("web_search_options"@.len() == 18);
    only_chat_fields_are_forwarded(request, backend_model, enable_thinking);
    assert("store"@[0] == 's' && "model"@[0] == 'm' && "tools"@[0] == 't' && "top_p"@[0] == 't');
    assert("text"@[0] == 't' && "stop"@[0] == 's' && "user"@[0] == 'u');
    assert("previous_response_id"@[0] == 'p' && "chat_template_kwargs"@[0] == 'c');
}

/// A choice of a tool, or a word on parallel calls, goes out only together with
/// tools.
pub proof fn tool_settings_need_tools(
    request: Map<Seq<char>, Json>,
    backend_model: Seq<char>,
    enable_thinking: bool,
)
    ensures
        ({
            let chat = chat_request(request, backend_model, enable_thinking);
            chat.contains_key("tool_choice"@) || chat.contains_key("parallel_tool_calls"@) ==> {
                &&& chat.contains_key("tools"@)
                &&& chat["tools"@] is Array
                &&& chat["tools"@]->Array_0.len() > 0
            }
        }),
{
    lemma_field_names();
}

/// The parameter that makes a model think goes out where it was asked for, and
/// nowhere else.
pub proof fn thinking_only_when_enabled(
    request: Map<Seq<char>, Json>,
    backend_model: Seq<char>,
    enable_thinking: bool,
)
    ensures
        lookup(
            chat_request(request, backend_model, enable_thinking),
            "chat_template_kwargs"@,
        ) == if enable_thinking {
            Some(thinking_parameters())
        } else {
            None
        },
{
    lemma_field_names();
}

/// Sampling parameters go through as they are, and none is made up.
pub proof fn sampling_passes_through(
    request: Map<Seq<char>, Json>,
    backend_model: Seq<char>,
    enable_thinking: bool,
)
    ensures
        ({
            let chat = chat_request(request, backend_model, enable_thinking);
            &&& lookup(chat, "temperature"@) == lookup(request, "temperature"@)
            &&& lookup(chat, "top_p"@) == lookup(request, "top_p"@)
            &&& lookup(chat, "stop"@) == lookup(request, "stop"@)
            &&& lookup(chat, "user"@) == lookup(request, "user"@)
            &&& lookup(chat, "max_tokens"@) == token_limit(request)
        }),
{
    lemma_field_names();
}

/// The content of a message is an array where there is an image in it, and a
/// string everywhere else.
pub proof fn content_is_text_without_images(content: Option<Json>)
    ensures
        chat_content(content) is Array || chat_content(content) is Str,
        chat_content(content) is Array <==> content is Some && content->0 is Array && has_image(
            content->0->Array_0,
        ),
{
}

/// Translating a conversation in two parts gives what the whole gives.
pub proof fn conversation_in_parts(h: History, a: Seq<Json>, b: Seq<Json>)
    ensures
        with_items(h, a + b) == with_items(with_items(h, a), b),
    decreases b.len(),
{
    if b.len() == 0 {
        assert(a + b =~= a);
    } else {
        assert((a + b).drop_last() =~= a + b.drop_last());
        conversation_in_parts(h, a, b.drop_last());
    }
}

/// The type of an item of a conversation; empty where it has none.
pub open spec fn item_kind(item: Json) -> Seq<char> {
    text_or(text_of(item.get("type"@)), ""@)
}

/// The tool call that an item makes, if it makes one.
pub open spec fn requested_call(item: Json) -> Option<Json> {
    if item is Object && item_kind(item) == "function_call"@ {
        Some(chat_tool_call(item->Object_0))
    } else {
        None
    }
}

/// The tool calls that a message holds.
pub open spec fn calls_in(message: Json) -> Seq<Json> {
    match message.get("tool_calls"@) {
        Some(Json::Array(a)) => a,
        _ => Seq::empty(),
    }
}

/// The tool calls that messages hold, in a row.
pub open spec fn all_calls_in(messages: Seq<Json>) -> Seq<Json>
    decreases messages.len(),
{
    if messages.len() == 0 {
        Seq::empty()
    } else {
        all_calls_in(messages.drop_last()) + calls_in(messages.last())
    }
}

proof fn lemma_calls_of_push(messages: Seq<Json>, m: Json)
    ensures
        all_calls_in(messages.push(m)) == all_calls_in(messages) + calls_in(m),
{
    assert(messages.push(m).drop_last() =~= messages);
}

proof fn lemma_message_keys()
    ensures
        "tool_calls"@ != "role"@,
        "tool_calls"@ != "content"@,
        "tool_calls"@ != "tool_call_id"@,
        "message"@ != "function_call"@,
        "message"@ != "function_call_output"@,
        "function_call"@ != "function_call_output"@,
{
    reveal_strlit("tool_calls");
    reveal_strlit("role");
    reveal_strlit("content");
    reveal_strlit("tool_call_id");
    reveal_strlit("message");
    reveal_strlit("function_call");
    reveal_strlit("function_call_output");
    assert("tool_calls"@.len() == 10);
    assert("role"@.len() == 4);
    assert("content"@.len() == 7);
    assert("tool_call_id"@.len() == 12);
    assert("message"@.len() == 7);
    assert("function_call"@.len() == 13);
    assert("function_call_output"@.len() == 20);
}

proof fn lemma_calls_of_flushed(h: History)
    ensures
        all_calls_in(flushed(h)) == all_calls_in(h.messages) + h.calls,
{
    lemma_message_keys();
    if h.calls.len() == 0 {
        assert(all_calls_in(h.messages) + h.calls =~= all_calls_in(h.messages));
    } else {
        lemma_calls_of_push(h.messages, assistant_message(h.calls));
        assert(calls_in(assistant_message(h.calls)) == h.calls);
    }
}

/// Every tool call of a conversation comes through, once and in its place, and
/// no other does.
pub proof fn tool_calls_come_through(h: History, items: Seq<Json>)
    ensures
        all_calls_in(flushed(with_items(h, items))) == all_calls_in(flushed(h))
            + items.filter_map(|i: Json| requested_call(i)),
    decreases items.len(),
{
    let f = |i: Json| requested_call(i);
    if items.len() == 0 {
        assert(items.filter_map(f) =~= Seq::<Json>::empty());
        assert(all_calls_in(flushed(h)) + Seq::<Json>::empty() =~= all_calls_in(flushed(h)));
    } else {
        let before = with_items(h, items.drop_last());
        let item = items.last();
        tool_calls_come_through(h, items.drop_last());
        lemma_message_keys();
        let after = with_item(before, item);
        lemma_calls_of_flushed(before);
        lemma_calls_of_flushed(after);
        let earlier = items.drop_last().filter_map(f);
        let all_before = all_calls_in(flushed(h)) + earlier;
        assert(item is Object ==> item.get("type"@) == lookup(item->Object_0, "type"@));
        if item is Object && item_kind(item) == "message"@ {
            let m = after.messages.last();
            lemma_calls_of_push(flushed(before), m);
            assert(calls_in(m) =~= Seq::<Json>::empty());
            assert(all_calls_in(flushed(after)) =~= all_before);
            assert(f(item) is None);
            assert(earlier + Seq::<Json>::empty() =~= earlier);
        } else if item is Object && item_kind(item) == "function_call"@ {
            let call = chat_tool_call(item->Object_0);
            assert(f(item) == Some(call));
            assert(before.calls.push(call) =~= before.calls + seq![call]);
            assert(all_calls_in(flushed(after)) =~= all_before + seq![call]);
            assert(all_before + seq![call] =~= all_calls_in(flushed(h)) + (earlier + seq![call]));
        } else if item is Object && item_kind(item) == "function_call_output"@ {
            let m = tool_message(item->Object_0);
            lemma_calls_of_push(flushed(before), m);
            assert(calls_in(m) =~= Seq::<Json>::empty());
            assert(all_calls_in(flushed(after)) =~= all_before);
            assert(f(item) is None);
        } else {
            assert(after == before);
            assert(f(item) is None);
        }
    }
}

/// The message that an item is, if it is one: a turn of the conversation, or the
/// output of a tool call.
pub open spec fn spoken_message(item: Json) -> Option<Json> {
    if item is Object && item_kind(item) == "message"@ {
        let o = item->Object_0;
        Some(
            chat_message(
                text_or(text_of(lookup(o, "role"@)), "user"@),
                chat_content(lookup(o, "content"@)),
            ),
        )
    } else if item is Object && item_kind(item) == "function_call_output"@ {
        Some(tool_message(item->Object_0))
    } else {
        None
    }
}

/// The messages that hold no tool calls.
pub open spec fn spoken_in(messages: Seq<Json>) -> Seq<Json>
    decreases messages.len(),
{
    if messages.len() == 0 {
        Seq::empty()
    } else if messages.last().get("tool_calls"@) is None {
        spoken_in(messages.drop_last()).push(messages.last())
    } else {
        spoken_in(messages.drop_last())
    }
}

proof fn lemma_spoken_of_flushed(h: History)
    ensures
        spoken_in(flushed(h)) == spoken_in(h.messages),
{
    lemma_message_keys();
    if h.calls.len() > 0 {
        let m = assistant_message(h.calls);
        assert(h.messages.push(m).drop_last() =~= h.messages);
        assert(m.get("tool_calls"@) is Some);
    }
}

/// Every turn of a conversation and every output of a tool call comes through,
/// once and in its place, and no other message without tool calls does.
pub proof fn turns_and_outputs_come_through(h: History, items: Seq<Json>)
    ensures
        spoken_in(flushed(with_items(h, items))) == spoken_in(flushed(h)) + items.filter_map(
            |i: Json| spoken_message(i),
        ),
    decreases items.len(),
{
    let f = |i: Json| spoken_message(i);
    let first = spoken_in(flushed(h));
    if items.len() == 0 {
        assert(items.filter_map(f) =~= Seq::<Json>::empty());
        assert(first + Seq::<Json>::empty() =~= first);
    } else {
        let before = with_items(h, items.drop_last());
        let item = items.last();
        turns_and_outputs_come_through(h, items.drop_last());
        lemma_message_keys();
        let after = with_item(before, item);
        lemma_spoken_of_flushed(before);
        lemma_spoken_of_flushed(after);
        let earlier = items.drop_last().filter_map(f);
        assert(item is Object ==> item.get("type"@) == lookup(item->Object_0, "type"@));
        match spoken_message(item) {
            Some(m) => {
                assert(m.get("tool_calls"@) is None);
                assert(flushed(before).push(m).drop_last() =~= flushed(before));
                assert(spoken_in(after.messages) == spoken_in(flushed(before)).push(m));
                assert(f(item) == Some(m));
                assert((first + earlier).push(m) =~= first + (earlier + seq![m]));
            },
            None => {
                assert(f(item) is None);
                assert(after.messages == before.messages);
                assert(earlier + Seq::<Json>::empty() =~= earlier);
            },
        }
    }
}

} // verus!
