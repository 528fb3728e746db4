//! What the messages of a translated conversation say.

use crate::json::json_text;
use crate::json::Json;
use crate::json_laws::array_at;
use crate::json_laws::at;
use crate::json_laws::has_only;
use crate::json_laws::lemma_filter_map_keeps;
use crate::json_laws::str_at;
use crate::json_laws::str_or;
use crate::text::is_blank;
use crate::text::is_white_space;
use crate::text::joined;
use crate::text_laws::has_ink;
use crate::translate::request::assistant_message;
use crate::translate::request::chat_content;
use crate::translate::request::chat_message;
use crate::translate::request::chat_messages;
use crate::translate::request::chat_part;
use crate::translate::request::chat_request;
use crate::translate::request::chat_tool_call;
use crate::translate::request::content_text;
use crate::translate::request::flushed;
use crate::translate::request::has_image;
use crate::translate::request::is_image;
use crate::translate::request::part_text;
use crate::translate::request::system_messages;
use crate::translate::request::tool_message;
use crate::translate::request::with_item;
use crate::translate::request::with_items;
use crate::translate::request::History;
use crate::translate::request_laws::lemma_field_names;
use vstd::prelude::*;

verus! {

// ---------------------------------------------------------------------------
// Content

/// Whether a piece of content is a text.
pub open spec fn is_text_piece(p: Json) -> bool {
    &&& str_at(p, "type"@) == Some("input_text"@) || str_at(p, "type"@) == Some("output_text"@)
        || str_at(p, "type"@) == Some("text"@)
    &&& str_at(p, "text"@) is Some
}

/// Whether a piece of content is an image that has an address.
pub open spec fn is_image_piece(p: Json) -> bool {
    str_at(p, "type"@) == Some("input_image"@) && str_at(p, "image_url"@) is Some
}

/// Whether there is a piece of the type of an image.
pub open spec fn shows_image(parts: Seq<Json>) -> bool {
    exists|i: int|
        0 <= i < parts.len() && str_at(#[trigger] parts[i], "type"@) == Some("input_image"@)
}

/// Texts with a line feed between each and the next.
pub open spec fn on_lines(texts: Seq<Seq<char>>) -> Seq<char>
    decreases texts.len(),
{
    if texts.len() == 0 {
        Seq::empty()
    } else if texts.len() == 1 {
        texts[0]
    } else {
        texts[0] + seq!['\n'] + on_lines(texts.drop_first())
    }
}

/// Whether `v` is the piece of content `p` as the chat API writes it.
pub open spec fn is_chat_piece(v: Json, p: Json) -> bool {
    if is_text_piece(p) {
        &&& has_only(v, set!["type"@, "text"@])
        &&& str_at(v, "type"@) == Some("text"@)
        &&& str_at(v, "text"@) == str_at(p, "text"@)
    } else {
        &&& has_only(v, set!["type"@, "image_url"@])
        &&& str_at(v, "type"@) == Some("image_url"@)
        &&& at(v, "image_url"@) is Some
        &&& has_only(at(v, "image_url"@)->0, set!["url"@])
        &&& str_at(at(v, "image_url"@)->0, "url"@) == str_at(p, "image_url"@)
    }
}

/// Whether `c` says what the content of an item says: a string says itself;
/// pieces without an image say their texts, line by line; pieces with an image
/// say each text and each image, one by one.
pub open spec fn says_content(c: Json, content: Option<Json>) -> bool {
    match content {
        None => c == Json::Str(Seq::empty()),
        Some(Json::Str(s)) => c == Json::Str(s),
        Some(Json::Array(parts)) => if shows_image(parts) {
            let kept = parts.filter(|p: Json| is_text_piece(p) || is_image_piece(p));
            &&& c is Array
            &&& c->Array_0.len() == kept.len()
            &&& forall|k: int|
                0 <= k < kept.len() ==> is_chat_piece(#[trigger] c->Array_0[k], kept[k])
        } else {
            let kept = parts.filter(|p: Json| is_text_piece(p));
            &&& c is Str
            &&& c->Str_0 == on_lines(kept.map_values(|p: Json| str_at(p, "text"@)->0))
        },
        Some(other) => c == Json::Str(json_text(other)),
    }
}

/// The types of pieces differ, and none is empty.
proof fn lemma_kinds_differ()
    ensures
        "input_text"@ != ""@,
        "output_text"@ != ""@,
        "text"@ != ""@,
        "input_image"@ != ""@,
        "input_text"@ != "output_text"@,
        "input_text"@ != "text"@,
        "input_text"@ != "input_image"@,
        "output_text"@ != "text"@,
        "output_text"@ != "input_image"@,
        "text"@ != "input_image"@,
{
    reveal_strlit("");
    assert(""@.len() == 0);
    reveal_strlit("input_text");
    reveal_strlit("output_text");
    reveal_strlit("text");
    reveal_strlit("input_image");
    assert("input_text"@.len() == 10);
    assert("output_text"@.len() == 11);
    assert("text"@.len() == 4);
    assert("input_image"@.len() == 11);
    assert("output_text"@[0] == 'o' && "input_image"@[0] == 'i');
}

/// The names in a piece differ.
proof fn lemma_piece_names_differ()
    ensures
        "type"@ != "text"@,
        "type"@ != "image_url"@,
        "type"@ != "url"@,
        "text"@ != "image_url"@,
        "text"@ != "url"@,
        "image_url"@ != "url"@,
{
    reveal_strlit("type");
    reveal_strlit("text");
    reveal_strlit("image_url");
    reveal_strlit("url");
    assert("type"@.len() == 4);
    assert("text"@.len() == 4);
    assert("image_url"@.len() == 9);
    assert("url"@.len() == 3);
    assert("type"@[1] == 'y' && "text"@[1] == 'e');
}

/// Texts on lines, with one more.
pub proof fn lemma_on_lines_push(texts: Seq<Seq<char>>, t: Seq<char>)
    ensures
        on_lines(texts.push(t)) == if texts.len() == 0 {
            t
        } else {
            on_lines(texts) + seq!['\n'] + t
        },
    decreases texts.len(),
{
    let all = texts.push(t);
    if texts.len() > 0 {
        let rest = texts.drop_first();
        assert(all.drop_first() =~= rest.push(t));
        lemma_on_lines_push(rest, t);
        assert(on_lines(all) =~= on_lines(texts) + seq!['\n'] + t);
    }
}

proof fn lemma_joined_is_on_lines(texts: Seq<Seq<char>>)
    ensures
        joined(texts, "\n"@) == on_lines(texts),
    decreases texts.len(),
{
    reveal_strlit("\n");
    assert("\n"@ =~= seq!['\n']);
    if texts.len() > 1 {
        let before = texts.drop_last();
        lemma_joined_is_on_lines(before);
        lemma_on_lines_push(before, texts.last());
        assert(before.push(texts.last()) =~= texts);
    }
}

/// The content of a message says what the content of the item says.
pub proof fn content_says_the_same(content: Option<Json>)
    ensures
        says_content(chat_content(content), content),
{
    lemma_kinds_differ();
    lemma_piece_names_differ();
    reveal_strlit("");
    assert(""@ =~= Seq::<char>::empty());
    match content {
        Some(Json::Array(parts)) => {
            assert forall|p: Json| #[trigger] is_image(p) <==> str_at(p, "type"@) == Some(
                "input_image"@,
            ) by {}
            assert(has_image(parts) <==> shows_image(parts)) by {
                if has_image(parts) {
                    let i = choose|i: int| 0 <= i < parts.len() && is_image(#[trigger] parts[i]);
                    assert(str_at(parts[i], "type"@) == Some("input_image"@));
                }
                if shows_image(parts) {
                    let i = choose|i: int|
                        0 <= i < parts.len() && str_at(#[trigger] parts[i], "type"@) == Some(
                            "input_image"@,
                        );
                    assert(is_image(parts[i]));
                }
            }
            if shows_image(parts) {
                let f = |p: Json| chat_part(p);
                let keep = |p: Json| is_text_piece(p) || is_image_piece(p);
                assert forall|p: Json| #[trigger] keep(p) <==> f(p) is Some by {}
                lemma_filter_map_keeps(parts, f, keep);
                let kept = parts.filter(keep);
                let c = chat_content(content);
                assert(c->Array_0 == parts.filter_map(f));
                assert forall|k: int| 0 <= k < kept.len() implies is_chat_piece(
                    #[trigger] c->Array_0[k],
                    kept[k],
                ) by {
                    assert(f(kept[k]) == Some(c->Array_0[k]));
                    lemma_chat_part_says(kept[k], c->Array_0[k]);
                }
            } else {
                let f = |p: Json| part_text(p);
                let keep = |p: Json| is_text_piece(p);
                assert forall|p: Json| #[trigger] keep(p) <==> f(p) is Some by {}
                lemma_filter_map_keeps(parts, f, keep);
                let texts = parts.filter(keep).map_values(|p: Json| str_at(p, "text"@)->0);
                assert(parts.filter_map(f) =~= texts) by {
                    assert forall|k: int| 0 <= k < texts.len() implies #[trigger] texts[k]
                        == parts.filter_map(f)[k] by {
                        assert(f(parts.filter(keep)[k]) == Some(parts.filter_map(f)[k]));
                    }
                }
                lemma_joined_is_on_lines(texts);
            }
        },
        _ => {},
    }
}

/// The content of a message as one text: a text as it is, pieces with an image as
/// their JSON text.
pub proof fn content_text_says_the_same(content: Option<Json>)
    ensures
        exists|c: Json|
            {
                &&& #[trigger] says_content(c, content)
                &&& content_text(content) == match c {
                    Json::Str(s) => s,
                    other => json_text(other),
                }
            },
{
    content_says_the_same(content);
    assert(says_content(chat_content(content), content));
}

proof fn lemma_chat_part_says(p: Json, v: Json)
    requires
        chat_part(p) == Some(v),
    ensures
        is_chat_piece(v, p),
{
    lemma_kinds_differ();
    lemma_piece_names_differ();
    if is_text_piece(p) {
        assert(v->Object_0.dom() =~= set!["type"@, "text"@]);
    } else {
        assert(v->Object_0.dom() =~= set!["type"@, "image_url"@]);
        assert(at(v, "image_url"@)->0->Object_0.dom() =~= set!["url"@]);
    }
}

// ---------------------------------------------------------------------------
// The conversation

/// Whether an item is a turn of the conversation.
pub open spec fn is_turn(item: Json) -> bool {
    str_at(item, "type"@) == Some("message"@)
}

/// Whether an item is a tool call.
pub open spec fn is_call(item: Json) -> bool {
    str_at(item, "type"@) == Some("function_call"@)
}

/// Whether an item is the output of a tool call.
pub open spec fn is_output(item: Json) -> bool {
    str_at(item, "type"@) == Some("function_call_output"@)
}

/// Whether an item is one of these.
pub open spec fn is_heard(item: Json) -> bool {
    is_turn(item) || is_call(item) || is_output(item)
}

/// Whether `v` is a message in which `role` says what `content` says, and nothing
/// else.
pub open spec fn is_said_by(v: Json, role: Seq<char>, content: Option<Json>) -> bool {
    &&& has_only(v, set!["role"@, "content"@])
    &&& str_at(v, "role"@) == Some(role)
    &&& says_content(at(v, "content"@)->0, content)
}

/// Whether `v` is the tool call of an item.
pub open spec fn is_call_of(v: Json, item: Json) -> bool {
    let function = at(v, "function"@);
    &&& has_only(v, set!["id"@, "type"@, "function"@])
    &&& str_at(v, "id"@) == Some(str_or(item, "call_id"@, "call"@))
    &&& str_at(v, "type"@) == Some("function"@)
    &&& has_only(function->0, set!["name"@, "arguments"@])
    &&& str_at(function->0, "name"@) == Some(str_or(item, "name"@, Seq::empty()))
    &&& str_at(function->0, "arguments"@) == Some(str_or(item, "arguments"@, "{}"@))
}

/// Whether `v` is the message with the output of a tool call: a string is given
/// as it is, any other value as its JSON text.
pub open spec fn is_output_of(v: Json, item: Json) -> bool {
    &&& has_only(v, set!["role"@, "tool_call_id"@, "content"@])
    &&& str_at(v, "role"@) == Some("tool"@)
    &&& str_at(v, "tool_call_id"@) == Some(str_or(item, "call_id"@, Seq::empty()))
    &&& str_at(v, "content"@) == Some(
        match at(item, "output"@) {
            None => Seq::empty(),
            Some(Json::Str(s)) => s,
            Some(other) => json_text(other),
        },
    )
}

/// Whether `v` is what an item comes out as.
pub open spec fn comes_out_as(v: Json, item: Json) -> bool {
    if is_turn(item) {
        is_said_by(v, str_or(item, "role"@, "user"@), at(item, "content"@))
    } else if is_call(item) {
        is_call_of(v, item)
    } else {
        is_output_of(v, item)
    }
}

/// What a message says: the tool calls that it makes, or itself where it makes
/// none.
pub open spec fn said_in(message: Json) -> Seq<Json> {
    match array_at(message, "tool_calls"@) {
        Some(calls) => calls,
        None => seq![message],
    }
}

/// What messages say, one after another.
pub open spec fn all_said(messages: Seq<Json>) -> Seq<Json>
    decreases messages.len(),
{
    if messages.len() == 0 {
        Seq::empty()
    } else {
        all_said(messages.drop_last()) + said_in(messages.last())
    }
}

/// Whether a message makes tool calls: it is one of the assistant, without
/// content, with at least one call.
pub open spec fn makes_calls(message: Json) -> bool {
    &&& has_only(message, set!["role"@, "tool_calls"@, "content"@])
    &&& str_at(message, "role"@) == Some("assistant"@)
    &&& at(message, "content"@) == Some(Json::Null)
    &&& array_at(message, "tool_calls"@) is Some
    &&& array_at(message, "tool_calls"@)->0.len() > 0
}

/// Whether tool calls are gathered: each message that has tool calls makes them,
/// and no two such messages follow each other.
pub open spec fn are_gathered(messages: Seq<Json>) -> bool {
    &&& forall|i: int|
        0 <= i < messages.len() && at(#[trigger] messages[i], "tool_calls"@) is Some
            ==> makes_calls(messages[i])
    &&& forall|i: int, j: int|
        0 <= i && j == i + 1 && j < messages.len() && at(
            #[trigger] messages[i],
            "tool_calls"@,
        ) is Some ==> at(#[trigger] messages[j], "tool_calls"@) is None
}

/// The names in a message differ.
proof fn lemma_message_names_differ()
    ensures
        "role"@ != "content"@,
        "role"@ != "tool_calls"@,
        "role"@ != "tool_call_id"@,
        "role"@ != "id"@,
        "role"@ != "type"@,
        "role"@ != "function"@,
        "role"@ != "name"@,
        "role"@ != "arguments"@,
        "content"@ != "tool_calls"@,
        "content"@ != "tool_call_id"@,
        "content"@ != "id"@,
        "content"@ != "type"@,
        "content"@ != "function"@,
        "content"@ != "name"@,
        "content"@ != "arguments"@,
        "tool_calls"@ != "tool_call_id"@,
        "tool_calls"@ != "id"@,
        "tool_calls"@ != "type"@,
        "tool_calls"@ != "function"@,
        "tool_calls"@ != "name"@,
        "tool_calls"@ != "arguments"@,
        "tool_call_id"@ != "id"@,
        "tool_call_id"@ != "type"@,
        "tool_call_id"@ != "function"@,
        "tool_call_id"@ != "name"@,
        "tool_call_id"@ != "arguments"@,
        "id"@ != "type"@,
        "id"@ != "function"@,
        "id"@ != "name"@,
        "id"@ != "arguments"@,
        "type"@ != "function"@,
        "type"@ != "name"@,
        "type"@ != "arguments"@,
        "function"@ != "name"@,
        "function"@ != "arguments"@,
        "name"@ != "arguments"@,
{
    reveal_strlit("role");
    reveal_strlit("content");
    reveal_strlit("tool_calls");
    reveal_strlit("tool_call_id");
    reveal_strlit("id");
    reveal_strlit("type");
    reveal_strlit("function");
    reveal_strlit("name");
    reveal_strlit("arguments");
    assert("role"@.len() == 4);
    assert("content"@.len() == 7);
    assert("tool_calls"@.len() == 10);
    assert("tool_call_id"@.len() == 12);
    assert("id"@.len() == 2);
    assert("type"@.len() == 4);
    assert("function"@.len() == 8);
    assert("name"@.len() == 4);
    assert("arguments"@.len() == 9);
    assert("role"@[0] == 'r' && "type"@[0] == 't');
    assert("role"@[0] == 'r' && "name"@[0] == 'n');
    assert("type"@[0] == 't' && "name"@[0] == 'n');
}

/// The types of items differ, and none is empty.
proof fn lemma_item_kinds_differ()
    ensures
        "message"@ != ""@,
        "function_call"@ != ""@,
        "function_call_output"@ != ""@,
        ""@ == Seq::<char>::empty(),
        "message"@ != "function_call"@,
        "message"@ != "function_call_output"@,
        "function_call"@ != "function_call_output"@,
{
    reveal_strlit("");
    assert(""@ =~= Seq::<char>::empty());
    reveal_strlit("message");
    reveal_strlit("function_call");
    reveal_strlit("function_call_output");
    assert("message"@.len() == 7);
    assert("function_call"@.len() == 13);
    assert("function_call_output"@.len() == 20);
}

proof fn lemma_all_said_push(messages: Seq<Json>, v: Json)
    ensures
        all_said(messages.push(v)) == all_said(messages) + said_in(v),
{
    assert(messages.push(v).drop_last() =~= messages);
}

proof fn lemma_message_says(role: Seq<char>, c: Json, content: Option<Json>)
    requires
        says_content(c, content),
    ensures
        is_said_by(chat_message(role, c), role, content),
        at(chat_message(role, c), "tool_calls"@) is None,
{
    lemma_message_names_differ();
    let v = chat_message(role, c);
    assert(v->Object_0.dom() =~= set!["role"@, "content"@]);
}

proof fn lemma_call_says(item: Json)
    requires
        item is Object,
    ensures
        is_call_of(chat_tool_call(item->Object_0), item),
{
    lemma_message_names_differ();
    lemma_item_kinds_differ();
    let v = chat_tool_call(item->Object_0);
    assert(v->Object_0.dom() =~= set!["id"@, "type"@, "function"@]);
    assert(at(v, "function"@)->0->Object_0.dom() =~= set!["name"@, "arguments"@]);
}

proof fn lemma_output_says(item: Json)
    requires
        item is Object,
    ensures
        is_output_of(tool_message(item->Object_0), item),
        at(tool_message(item->Object_0), "tool_calls"@) is None,
{
    lemma_message_names_differ();
    lemma_item_kinds_differ();
    let v = tool_message(item->Object_0);
    assert(v->Object_0.dom() =~= set!["role"@, "tool_call_id"@, "content"@]);
}

proof fn lemma_assistant_says(calls: Seq<Json>)
    requires
        calls.len() > 0,
    ensures
        makes_calls(assistant_message(calls)),
        said_in(assistant_message(calls)) == calls,
{
    lemma_message_names_differ();
    let v = assistant_message(calls);
    assert(v->Object_0.dom() =~= set!["role"@, "tool_calls"@, "content"@]);
}

/// What holds of a conversation that has been read so far: what its messages say,
/// with the calls that wait, is `first` and what `heard` comes out as.
spec fn told(h: History, first: Seq<Json>, heard: Seq<Json>) -> bool {
    let said = all_said(h.messages) + h.calls;
    &&& said.len() == first.len() + heard.len()
    &&& first.is_prefix_of(said)
    &&& forall|k: int|
        0 <= k < heard.len() ==> comes_out_as(
            said[first.len() + k],
            #[trigger] heard[k],
        )
    &&& are_gathered(h.messages)
}

/// Whether the last message makes no tool calls.
spec fn ends_open(messages: Seq<Json>) -> bool {
    messages.len() > 0 ==> at(messages.last(), "tool_calls"@) is None
}

proof fn lemma_gathered_push(messages: Seq<Json>, v: Json)
    requires
        are_gathered(messages),
        at(v, "tool_calls"@) is Some ==> makes_calls(v) && (messages.len() > 0 ==> at(
            messages.last(),
            "tool_calls"@,
        ) is None),
    ensures
        are_gathered(messages.push(v)),
{
    let all = messages.push(v);
    assert forall|i: int|
        0 <= i < all.len() && at(#[trigger] all[i], "tool_calls"@) is Some implies makes_calls(
        all[i],
    ) by {
        if i < messages.len() {
            assert(all[i] == messages[i]);
        }
    }
    assert forall|i: int, j: int|
        0 <= i && j == i + 1 && j < all.len() && at(
            #[trigger] all[i],
            "tool_calls"@,
        ) is Some implies at(#[trigger] all[j], "tool_calls"@) is None by {
        assert(all[i] == messages[i]);
        if j < messages.len() {
            assert(all[j] == messages[j]);
        } else {
            assert(messages[i] == messages.last());
        }
    }
}

proof fn lemma_told_flushed(h: History, first: Seq<Json>, heard: Seq<Json>)
    requires
        told(h, first, heard),
        ends_open(h.messages),
    ensures
        told(History { messages: flushed(h), calls: Seq::empty() }, first, heard),
        all_said(flushed(h)) == all_said(h.messages) + h.calls,
{
    let none = Seq::<Json>::empty();
    let said = all_said(h.messages) + h.calls;
    if h.calls.len() == 0 {
        assert(said =~= all_said(h.messages));
        assert(all_said(flushed(h)) + none =~= said);
    } else {
        lemma_assistant_says(h.calls);
        lemma_all_said_push(h.messages, assistant_message(h.calls));
        assert(all_said(flushed(h)) + none =~= said);
        lemma_gathered_push(h.messages, assistant_message(h.calls));
    }
}

/// A message more, for an item more.
proof fn lemma_told_message(
    messages: Seq<Json>,
    first: Seq<Json>,
    heard: Seq<Json>,
    v: Json,
    item: Json,
)
    requires
        told(History { messages, calls: Seq::empty() }, first, heard),
        at(v, "tool_calls"@) is None,
        comes_out_as(v, item),
    ensures
        told(
            History { messages: messages.push(v), calls: Seq::empty() },
            first,
            heard.push(item),
        ),
{
    let none = Seq::<Json>::empty();
    lemma_all_said_push(messages, v);
    lemma_gathered_push(messages, v);
    let before = all_said(messages) + none;
    let said = all_said(messages.push(v)) + none;
    assert(said =~= before.push(v));
    lemma_told_push(before, first, heard, v, item);
}

proof fn lemma_told_push(
    before: Seq<Json>,
    first: Seq<Json>,
    heard: Seq<Json>,
    v: Json,
    item: Json,
)
    requires
        before.len() == first.len() + heard.len(),
        first.is_prefix_of(before),
        forall|k: int|
            0 <= k < heard.len() ==> comes_out_as(before[first.len() + k], #[trigger] heard[k]),
        comes_out_as(v, item),
    ensures
        first.is_prefix_of(before.push(v)),
        forall|k: int|
            0 <= k < heard.push(item).len() ==> comes_out_as(
                before.push(v)[first.len() + k],
                #[trigger] heard.push(item)[k],
            ),
{
    let said = before.push(v);
    assert(said.subrange(0, first.len() as int) =~= before.subrange(0, first.len() as int));
    assert forall|k: int| 0 <= k < heard.push(item).len() implies comes_out_as(
        said[first.len() + k],
        #[trigger] heard.push(item)[k],
    ) by {
        if k < heard.len() {
            assert(heard.push(item)[k] == heard[k]);
            assert(said[first.len() + k] == before[first.len() + k]);
        }
    }
}

proof fn lemma_told_item(h: History, first: Seq<Json>, heard: Seq<Json>, item: Json)
    requires
        told(h, first, heard),
        ends_open(h.messages),
    ensures
        ends_open(with_item(h, item).messages),
        told(
            with_item(h, item),
            first,
            if is_heard(item) {
                heard.push(item)
            } else {
                heard
            },
        ),
{
    lemma_item_kinds_differ();
    if is_turn(item) {
        let role = str_or(item, "role"@, "user"@);
        let content = at(item, "content"@);
        content_says_the_same(content);
        lemma_message_says(role, chat_content(content), content);
        lemma_told_flushed(h, first, heard);
        lemma_told_message(
            flushed(h),
            first,
            heard,
            chat_message(role, chat_content(content)),
            item,
        );
    } else if is_call(item) {
        let call = chat_tool_call(item->Object_0);
        lemma_call_says(item);
        let before = all_said(h.messages) + h.calls;
        assert(all_said(h.messages) + h.calls.push(call) =~= before.push(call));
        lemma_told_push(before, first, heard, call, item);
    } else if is_output(item) {
        lemma_output_says(item);
        lemma_told_flushed(h, first, heard);
        lemma_told_message(flushed(h), first, heard, tool_message(item->Object_0), item);
    }
}

proof fn lemma_told_items(h: History, first: Seq<Json>, items: Seq<Json>)
    requires
        told(h, first, Seq::empty()),
        ends_open(h.messages),
    ensures
        told(with_items(h, items), first, items.filter(|i: Json| is_heard(i))),
        ends_open(with_items(h, items).messages),
    decreases items.len(),
{
    reveal(Seq::filter);
    let keep = |i: Json| is_heard(i);
    if items.len() == 0 {
        assert(items.filter(keep) =~= Seq::<Json>::empty());
    } else {
        lemma_told_items(h, first, items.drop_last());
        let before = with_items(h, items.drop_last());
        lemma_told_item(before, first, items.drop_last().filter(keep), items.last());
    }
}

/// Whether messages tell a conversation: first the instructions, unless they are
/// blank, as said by the system; then every turn, every tool call and every
/// output of one, each once and in its place, as it came, and nothing else. Tool
/// calls in a row are gathered in one message of the assistant.
pub open spec fn tell(messages: Seq<Json>, instructions: Seq<char>, items: Seq<Json>) -> bool {
    let said = all_said(messages);
    let heard = items.filter(|i: Json| is_heard(i));
    let first: int = if has_ink(instructions) {
        1
    } else {
        0
    };
    &&& said.len() == first + heard.len()
    &&& has_ink(instructions) ==> is_said_by(
        said[0],
        "system"@,
        Some(Json::Str(instructions)),
    )
    &&& forall|k: int|
        0 <= k < heard.len() ==> comes_out_as(said[first + k], #[trigger] heard[k])
    &&& are_gathered(messages)
}

proof fn lemma_first_messages(instructions: Seq<char>)
    ensures
        ({
            let first = system_messages(instructions);
            &&& first.len() == if has_ink(instructions) {
                1nat
            } else {
                0nat
            }
            &&& has_ink(instructions) ==> is_said_by(
                first[0],
                "system"@,
                Some(Json::Str(instructions)),
            )
            &&& told(History { messages: first, calls: Seq::empty() }, first, Seq::empty())
            &&& ends_open(first)
            &&& all_said(first) == first
        }),
{
    let first = system_messages(instructions);
    let none = Seq::<Json>::empty();
    assert(is_blank(instructions) <==> !has_ink(instructions)) by {
        if has_ink(instructions) {
            let i = choose|i: int|
                0 <= i < instructions.len() && !is_white_space(#[trigger] instructions[i]);
            assert(!is_white_space(instructions[i]));
        }
    }
    if has_ink(instructions) {
        let c = Json::Str(instructions);
        lemma_message_says("system"@, c, Some(c));
        assert(none.push(first[0]) =~= first);
        lemma_all_said_push(none, first[0]);
        assert(all_said(none) =~= none);
        assert(all_said(first) =~= first);
        lemma_gathered_push(none, first[0]);
    } else {
        assert(all_said(first) =~= first);
    }
    assert(all_said(first) + none =~= first);
    assert(first.subrange(0, first.len() as int) =~= first);
}

/// A conversation comes through: the messages tell what the items tell.
pub proof fn conversation_comes_through(instructions: Seq<char>, items: Seq<Json>)
    ensures
        tell(chat_messages(instructions, Json::Array(items)), instructions, items),
{
    let first = system_messages(instructions);
    let none = Seq::<Json>::empty();
    let h = History { messages: first, calls: none };
    lemma_first_messages(instructions);
    lemma_told_items(h, first, items);
    let after = with_items(h, items);
    let heard = items.filter(|i: Json| is_heard(i));
    lemma_told_flushed(after, first, heard);
    let messages = flushed(after);
    assert(all_said(messages) + none =~= all_said(messages));
    if has_ink(instructions) {
        assert(all_said(messages).subrange(0, 1)[0] == all_said(messages)[0]);
    }
}

/// A conversation that is one text is one turn of the user.
pub proof fn a_text_is_a_turn_of_the_user(instructions: Seq<char>, s: Seq<char>)
    ensures
        ({
            let messages = chat_messages(instructions, Json::Str(s));
            let first: int = if has_ink(instructions) {
                1
            } else {
                0
            };
            &&& messages.len() == first + 1
            &&& has_ink(instructions) ==> is_said_by(
                messages[0],
                "system"@,
                Some(Json::Str(instructions)),
            )
            &&& is_said_by(messages[first], "user"@, Some(Json::Str(s)))
        }),
{
    lemma_first_messages(instructions);
    lemma_message_says("user"@, Json::Str(s), Some(Json::Str(s)));
}

/// The messages of a chat request tell the conversation of the request: its
/// items, or its one text; a request without either has none.
pub proof fn messages_tell_the_conversation(
    request: Map<Seq<char>, Json>,
    backend_model: Seq<char>,
    enable_thinking: bool,
)
    ensures
        ({
            let r = Json::Object(request);
            let chat = Json::Object(chat_request(request, backend_model, enable_thinking));
            let messages = array_at(chat, "messages"@)->0;
            let instructions = str_or(r, "instructions"@, Seq::empty());
            &&& array_at(chat, "messages"@) is Some
            &&& match at(r, "input"@) {
                Some(Json::Array(items)) => tell(messages, instructions, items),
                Some(Json::Str(s)) => {
                    let turn = messages.last();
                    &&& messages.len() > 0
                    &&& is_said_by(turn, "user"@, Some(Json::Str(s)))
                    &&& tell(messages.drop_last(), instructions, Seq::empty())
                },
                _ => tell(messages, instructions, Seq::empty()),
            }
        }),
{
    lemma_field_names();
    lemma_item_kinds_differ();
    let instructions = str_or(Json::Object(request), "instructions"@, Seq::empty());
    let none = Seq::<Json>::empty();
    let first = system_messages(instructions);
    conversation_comes_through(instructions, none);
    lemma_first_messages(instructions);
    assert(chat_messages(instructions, Json::Array(none)) =~= first);
    match at(Json::Object(request), "input"@) {
        Some(Json::Array(items)) => {
            conversation_comes_through(instructions, items);
        },
        Some(Json::Str(s)) => {
            a_text_is_a_turn_of_the_user(instructions, s);
            let messages = chat_messages(instructions, Json::Str(s));
            assert(messages.drop_last() =~= first);
        },
        _ => {},
    }
}

} // verus!
