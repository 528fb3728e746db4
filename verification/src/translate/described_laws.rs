//! What every event of a stream says of itself, and in what order events come.

use crate::ids::alphabet;
use crate::ids::id_chars;
use crate::ids::id_chars_are_spelled;
use crate::ids::id_text;
use crate::json::Json;
use crate::json_laws::array_at;
use crate::json_laws::at;
use crate::json_laws::has_only;
use crate::json_laws::str_at;
use crate::text::string_view;
use crate::translate::chat::ChatChunk;
use crate::translate::chat::ChatToolCall;
use crate::translate::events::EventModel;
use crate::translate::index_laws::before_finish;
use crate::translate::index_laws::finishes;
use crate::translate::index_laws::lemma_chunk_parts;
use crate::translate::index_laws::piece_arguments;
use crate::translate::index_laws::piece_name;
use crate::translate::index_laws::pieces_of;
use crate::translate::index_laws::texts_of;
use crate::translate::stream_laws::count;
use crate::translate::stream_laws::last_usage;
use crate::translate::stream_laws::lemma_count_concat;
use crate::translate::stream_laws::lemma_number_after;
use crate::translate::stream_laws::mixed_run;
use crate::translate::stream_laws::number_after;
use crate::translate::stream_laws::on_call;
use crate::translate::stream_laws::run;
use crate::translate::stream_laws::usage_is_the_last_one_brought;
use crate::translate::stream_laws::whole_run;
use crate::translate::stream_laws::StreamCall;
use crate::translate::stream_model::add_arguments;
use crate::translate::stream_model::add_reasoning;
use crate::translate::stream_model::add_text;
use crate::translate::stream_model::announce_call;
use crate::translate::stream_model::at_count;
use crate::translate::stream_model::call_arguments;
use crate::translate::stream_model::call_item;
use crate::translate::stream_model::close_call;
use crate::translate::stream_model::close_calls;
use crate::translate::stream_model::close_message;
use crate::translate::stream_model::close_reasoning;
use crate::translate::stream_model::followed_by;
use crate::translate::stream_model::in_order;
use crate::translate::stream_model::initial;
use crate::translate::stream_model::label_call;
use crate::translate::stream_model::message_added_item;
use crate::translate::stream_model::message_done_item;
use crate::translate::stream_model::on_chunk;
use crate::translate::stream_model::on_completed;
use crate::translate::stream_model::on_created;
use crate::translate::stream_model::on_end;
use crate::translate::stream_model::on_failed;
use crate::translate::stream_model::on_finish;
use crate::translate::stream_model::on_reasoning;
use crate::translate::stream_model::on_text;
use crate::translate::stream_model::on_tool_call;
use crate::translate::stream_model::on_tool_calls;
use crate::translate::stream_model::open_call;
use crate::translate::stream_model::open_message;
use crate::translate::stream_model::open_reasoning;
use crate::translate::stream_model::reasoning_added_item;
use crate::translate::stream_model::reasoning_done_item;
use crate::translate::stream_model::with_usage;
use crate::translate::stream_model::Reading;
use crate::translate::stream_model::Step;
use crate::translate::stream_model::StreamModel;
use vstd::prelude::*;

verus! {

/// Whether a text is an identifier: a prefix, an underscore and twenty-two
/// characters of the alphabet.
pub open spec fn is_id(s: Seq<char>, prefix: Seq<char>) -> bool {
    &&& s.len() == prefix.len() + 23
    &&& prefix.is_prefix_of(s)
    &&& s[prefix.len() as int] == '_'
    &&& forall|i: int| prefix.len() < i < s.len() ==> alphabet().contains(#[trigger] s[i])
}

/// Whether an item has an identifier with this prefix.
pub open spec fn has_id(item: Json, prefix: Seq<char>) -> bool {
    str_at(item, "id"@) is Some && is_id(str_at(item, "id"@)->0, prefix)
}

/// Whether an item is a reasoning, with this status and these pieces of content.
pub open spec fn is_reasoning_item(item: Json, status: Seq<char>, content: Seq<Json>) -> bool {
    &&& has_only(item, set!["type"@, "id"@, "summary"@, "content"@, "status"@])
    &&& str_at(item, "type"@) == Some("reasoning"@)
    &&& has_id(item, "rs"@)
    &&& array_at(item, "summary"@) == Some(Seq::<Json>::empty())
    &&& array_at(item, "content"@) == Some(content)
    &&& str_at(item, "status"@) == Some(status)
}

/// Whether an item is a message of the assistant, with this status and these
/// pieces of content.
pub open spec fn is_message_item(item: Json, status: Seq<char>, content: Seq<Json>) -> bool {
    &&& has_only(item, set!["type"@, "id"@, "role"@, "content"@, "status"@])
    &&& str_at(item, "type"@) == Some("message"@)
    &&& has_id(item, "msg"@)
    &&& str_at(item, "role"@) == Some("assistant"@)
    &&& array_at(item, "content"@) == Some(content)
    &&& str_at(item, "status"@) == Some(status)
}

/// Whether an item is a tool call with a name, and this status.
pub open spec fn is_named_call(item: Json, status: Seq<char>) -> bool {
    &&& has_only(
        item,
        set!["type"@, "id"@, "call_id"@, "name"@, "arguments"@, "status"@],
    )
    &&& str_at(item, "type"@) == Some("function_call"@)
    &&& has_id(item, "fc"@)
    &&& str_at(item, "call_id"@) is Some
    &&& str_at(item, "name"@) is Some
    &&& str_at(item, "name"@)->0.len() > 0
    &&& str_at(item, "arguments"@) is Some
    &&& str_at(item, "status"@) == Some(status)
}

/// Whether a piece of content is a text of this type.
pub open spec fn is_part(part: Json, kind: Seq<char>) -> bool {
    &&& has_only(part, set!["type"@, "text"@])
    &&& str_at(part, "type"@) == Some(kind)
    &&& str_at(part, "text"@) is Some
}

/// Whether an item is one that begins: it has no content yet.
pub open spec fn is_begun(item: Json) -> bool {
    ||| is_reasoning_item(item, "in_progress"@, Seq::empty())
    ||| is_message_item(item, "in_progress"@, Seq::empty())
    ||| is_named_call(item, "in_progress"@) && str_at(item, "arguments"@) == Some(
        Seq::<char>::empty(),
    )
}

/// Whether an item is one that is complete: a reasoning and a message have one
/// piece of content.
pub open spec fn is_done(item: Json) -> bool {
    let content = array_at(item, "content"@)->0;
    ||| is_reasoning_item(item, "completed"@, content) && content.len() == 1 && is_part(
        content[0],
        "reasoning_text"@,
    )
    ||| is_message_item(item, "completed"@, content) && content.len() == 1 && is_part(
        content[0],
        "output_text"@,
    )
    ||| is_named_call(item, "completed"@)
}

/// Whether an event says of itself what it should.
pub open spec fn is_described(e: EventModel) -> bool {
    match e {
        EventModel::Created { response, .. } => {
            &&& response.object == "response"@
            &&& response.status == "in_progress"@
            &&& response.output.len() == 0
            &&& is_id(response.id, "resp"@)
        },
        EventModel::OutputItemAdded { item, .. } => is_begun(item),
        EventModel::OutputTextDelta { content_index, delta, .. } => content_index == 0
            && delta.len() > 0,
        EventModel::ReasoningTextDelta { content_index, delta, .. } => content_index == 0
            && delta.len() > 0,
        EventModel::FunctionCallArgumentsDelta { delta, .. } => delta.len() > 0,
        EventModel::OutputItemDone { item, .. } => is_done(item),
        EventModel::Completed { response, .. } => {
            &&& response.object == "response"@
            &&& response.status == "completed"@
            &&& response.output.len() == 0
            &&& is_id(response.id, "resp"@)
        },
        EventModel::Failed { response, .. } => {
            &&& response.object == "response"@
            &&& response.status == "failed"@
            &&& response.output.len() == 0
            &&& is_id(response.id, "resp"@)
            &&& has_only(response.error, set!["code"@, "message"@])
            &&& str_at(response.error, "code"@) == Some("upstream_error"@)
            &&& str_at(response.error, "message"@) is Some
        },
    }
}

/// Whether all events say of themselves what they should.
pub open spec fn are_described(events: Seq<EventModel>) -> bool {
    forall|i: int| 0 <= i < events.len() ==> is_described(#[trigger] events[i])
}

/// Whether the items that are open have identifiers.
spec fn open_items_have_ids(m: StreamModel) -> bool {
    &&& is_id(m.response_id, "resp"@)
    &&& m.message_item_id is Some ==> is_id(m.message_item_id->0, "msg"@)
    &&& m.reasoning_item_id is Some ==> is_id(m.reasoning_item_id->0, "rs"@)
    &&& forall|i: u32| #[trigger]
        m.tool_calls.contains_key(i) ==> is_id(m.tool_calls[i].item_id, "fc"@) && (
        m.tool_calls[i].added ==> m.tool_calls[i].name.len() > 0)
}

/// Whether a step keeps the identifiers, and its events are described.
spec fn keeps(m: StreamModel, s: Step) -> bool {
    open_items_have_ids(m) ==> open_items_have_ids(s.state) && are_described(s.events)
}

proof fn lemma_keeps_then(m: StreamModel, a: Step, b: Step)
    requires
        keeps(m, a),
        keeps(a.state, b),
    ensures
        keeps(m, followed_by(a, b)),
{
    let all = a.events + b.events;
    if open_items_have_ids(m) {
        assert forall|i: int| 0 <= i < all.len() implies is_described(#[trigger] all[i]) by {
            if i < a.events.len() {
                assert(all[i] == a.events[i]);
            } else {
                assert(all[i] == b.events[i - a.events.len()]);
            }
        }
    }
}

pub proof fn lemma_id(prefix: Seq<char>, n: u64)
    ensures
        is_id(id_text(prefix, n), prefix),
{
    reveal_strlit("_");
    id_chars_are_spelled(n, 22);
    let s = id_text(prefix, n);
    assert(s.subrange(0, prefix.len() as int) =~= prefix);
    assert forall|i: int| prefix.len() < i < s.len() implies alphabet().contains(
        #[trigger] s[i],
    ) by {
        assert(s[i] == id_chars(n, 22)[i - prefix.len() - 1]);
    }
}

/// The names in items differ.
proof fn lemma_names()
    ensures
        "type"@ != "id"@,
        "type"@ != "summary"@,
        "type"@ != "content"@,
        "type"@ != "status"@,
        "type"@ != "role"@,
        "type"@ != "call_id"@,
        "type"@ != "name"@,
        "type"@ != "arguments"@,
        "type"@ != "text"@,
        "type"@ != "code"@,
        "type"@ != "message"@,
        "id"@ != "summary"@,
        "id"@ != "content"@,
        "id"@ != "status"@,
        "id"@ != "role"@,
        "id"@ != "call_id"@,
        "id"@ != "name"@,
        "id"@ != "arguments"@,
        "id"@ != "text"@,
        "id"@ != "code"@,
        "id"@ != "message"@,
        "summary"@ != "content"@,
        "summary"@ != "status"@,
        "summary"@ != "role"@,
        "summary"@ != "call_id"@,
        "summary"@ != "name"@,
        "summary"@ != "arguments"@,
        "summary"@ != "text"@,
        "summary"@ != "code"@,
        "summary"@ != "message"@,
        "content"@ != "status"@,
        "content"@ != "role"@,
        "content"@ != "call_id"@,
        "content"@ != "name"@,
        "content"@ != "arguments"@,
        "content"@ != "text"@,
        "content"@ != "code"@,
        "content"@ != "message"@,
        "status"@ != "role"@,
        "status"@ != "call_id"@,
        "status"@ != "name"@,
        "status"@ != "arguments"@,
        "status"@ != "text"@,
        "status"@ != "code"@,
        "status"@ != "message"@,
        "role"@ != "call_id"@,
        "role"@ != "name"@,
        "role"@ != "arguments"@,
        "role"@ != "text"@,
        "role"@ != "code"@,
        "role"@ != "message"@,
        "call_id"@ != "name"@,
        "call_id"@ != "arguments"@,
        "call_id"@ != "text"@,
        "call_id"@ != "code"@,
        "call_id"@ != "message"@,
        "name"@ != "arguments"@,
        "name"@ != "text"@,
        "name"@ != "code"@,
        "name"@ != "message"@,
        "arguments"@ != "text"@,
        "arguments"@ != "code"@,
        "arguments"@ != "message"@,
        "text"@ != "code"@,
        "text"@ != "message"@,
        "code"@ != "message"@,
{
    reveal_strlit("type");
    reveal_strlit("id");
    reveal_strlit("summary");
    reveal_strlit("content");
    reveal_strlit("status");
    reveal_strlit("role");
    reveal_strlit("call_id");
    reveal_strlit("name");
    reveal_strlit("arguments");
    reveal_strlit("text");
    reveal_strlit("code");
    reveal_strlit("message");
    assert("type"@.len() == 4);
    assert("id"@.len() == 2);
    assert("summary"@.len() == 7);
    assert("content"@.len() == 7);
    assert("status"@.len() == 6);
    assert("role"@.len() == 4);
    assert("call_id"@.len() == 7);
    assert("name"@.len() == 4);
    assert("arguments"@.len() == 9);
    assert("text"@.len() == 4);
    assert("code"@.len() == 4);
    assert("message"@.len() == 7);
    assert("type"@[0] == 't' && "role"@[0] == 'r');
    assert("type"@[0] == 't' && "name"@[0] == 'n');
    assert("type"@[1] == 'y' && "text"@[1] == 'e');
    assert("type"@[0] == 't' && "code"@[0] == 'c');
    assert("summary"@[0] == 's' && "content"@[0] == 'c');
    assert("summary"@[0] == 's' && "call_id"@[0] == 'c');
    assert("summary"@[0] == 's' && "message"@[0] == 'm');
    assert("content"@[1] == 'o' && "call_id"@[1] == 'a');
    assert("content"@[0] == 'c' && "message"@[0] == 'm');
    assert("role"@[0] == 'r' && "name"@[0] == 'n');
    assert("role"@[0] == 'r' && "text"@[0] == 't');
    assert("role"@[0] == 'r' && "code"@[0] == 'c');
    assert("call_id"@[0] == 'c' && "message"@[0] == 'm');
    assert("name"@[0] == 'n' && "text"@[0] == 't');
    assert("name"@[0] == 'n' && "code"@[0] == 'c');
    assert("text"@[0] == 't' && "code"@[0] == 'c');
}

proof fn lemma_items_are_items(id: Seq<char>, text: Seq<char>)
    ensures
        is_id(id, "rs"@) ==> is_begun(reasoning_added_item(id)) && is_done(
            reasoning_done_item(id, text),
        ),
        is_id(id, "msg"@) ==> is_begun(message_added_item(id)) && is_done(
            message_done_item(id, text),
        ),
{
    lemma_names();
    let names = set!["type"@, "id"@, "summary"@, "content"@, "status"@];
    let a = reasoning_added_item(id);
    let b = reasoning_done_item(id, text);
    assert(a->Object_0.dom() =~= names);
    assert(b->Object_0.dom() =~= names);
    assert(array_at(b, "content"@)->0[0]->Object_0.dom() =~= set!["type"@, "text"@]);
    let others = set!["type"@, "id"@, "role"@, "content"@, "status"@];
    let c = message_added_item(id);
    let d = message_done_item(id, text);
    assert(c->Object_0.dom() =~= others);
    assert(d->Object_0.dom() =~= others);
    assert(array_at(d, "content"@)->0[0]->Object_0.dom() =~= set!["type"@, "text"@]);
}

proof fn lemma_call_is_item(
    id: Seq<char>,
    call_id: Seq<char>,
    name: Seq<char>,
    arguments: Seq<char>,
    status: Seq<char>,
)
    requires
        is_id(id, "fc"@),
        name.len() > 0,
    ensures
        ({
            let item = call_item(id, call_id, name, arguments, status);
            &&& is_named_call(item, status)
            &&& str_at(item, "id"@) == Some(id)
            &&& str_at(item, "call_id"@) == Some(call_id)
            &&& str_at(item, "name"@) == Some(name)
            &&& str_at(item, "arguments"@) == Some(arguments)
        }),
{
    lemma_names();
    let item = call_item(id, call_id, name, arguments, status);
    assert(item->Object_0.dom() =~= set![
        "type"@,
        "id"@,
        "call_id"@,
        "name"@,
        "arguments"@,
        "status"@,
    ]);
}

proof fn lemma_keeps_texts(m: StreamModel, t: Option<Seq<char>>, now: u64)
    ensures
        keeps(m, on_reasoning(m, t, now)),
        keeps(m, on_text(m, t, now)),
{
    let id = id_text("rs"@, now ^ m.id_count);
    lemma_id("rs"@, now ^ m.id_count);
    lemma_items_are_items(id, Seq::empty());
    let other = id_text("msg"@, now ^ m.id_count);
    lemma_id("msg"@, now ^ m.id_count);
    lemma_items_are_items(other, Seq::empty());
    if t is Some && t->0.len() > 0 {
        let a = open_reasoning(m, now);
        let b = add_reasoning(a.state, t->0);
        assert(keeps(m, a));
        assert(keeps(a.state, b));
        lemma_keeps_then(m, a, b);
        let c = open_message(m, now);
        let d = add_text(c.state, t->0);
        assert(keeps(m, c));
        assert(keeps(c.state, d));
        lemma_keeps_then(m, c, d);
    }
}

proof fn lemma_keeps_call(m: StreamModel, tc: ChatToolCall, now: u64)
    ensures
        keeps(m, on_tool_call(m, tc, now)),
{
    reveal_strlit("");
    assert(""@ =~= Seq::<char>::empty());
    lemma_id("fc"@, now ^ m.id_count);
    let l = label_call(m, tc, now);
    let a = announce_call(l, tc.index);
    let b = add_arguments(a.state, tc.index, call_arguments(tc));
    if open_items_have_ids(m) {
        let opened = open_call(m, tc, now);
        assert(open_items_have_ids(opened));
        assert(l.tool_calls.contains_key(tc.index));
        assert(open_items_have_ids(l)) by {
            assert forall|i: u32| #[trigger] l.tool_calls.contains_key(i) implies is_id(
                l.tool_calls[i].item_id,
                "fc"@,
            ) && (l.tool_calls[i].added ==> l.tool_calls[i].name.len() > 0) by {
                assert(opened.tool_calls.contains_key(i));
            }
        }
        let t = l.tool_calls[tc.index];
        if a.events.len() > 0 {
            lemma_call_is_item(t.item_id, t.call_id, t.name, ""@, "in_progress"@);
        }
        assert(open_items_have_ids(a.state)) by {
            assert forall|i: u32| #[trigger] a.state.tool_calls.contains_key(i) implies is_id(
                a.state.tool_calls[i].item_id,
                "fc"@,
            ) && (a.state.tool_calls[i].added ==> a.state.tool_calls[i].name.len() > 0) by {
                assert(l.tool_calls.contains_key(i));
            }
        }
        assert(are_described(a.events));
        assert(a.state.tool_calls.contains_key(tc.index));
        assert(open_items_have_ids(b.state)) by {
            assert forall|i: u32| #[trigger] b.state.tool_calls.contains_key(i) implies is_id(
                b.state.tool_calls[i].item_id,
                "fc"@,
            ) && (b.state.tool_calls[i].added ==> b.state.tool_calls[i].name.len() > 0) by {
                assert(a.state.tool_calls.contains_key(i));
            }
        }
        assert(are_described(b.events));
        assert(keeps(l, a));
        assert(keeps(a.state, b));
        lemma_keeps_then(l, a, b);
    }
}

proof fn lemma_keeps_calls(m: StreamModel, calls: Seq<ChatToolCall>, now: u64)
    ensures
        keeps(m, on_tool_calls(m, calls, now)),
    decreases calls.len(),
{
    if calls.len() > 0 {
        let before = on_tool_calls(m, calls.drop_last(), now);
        lemma_keeps_calls(m, calls.drop_last(), now);
        lemma_keeps_call(before.state, calls.last(), now);
        lemma_keeps_then(m, before, on_tool_call(before.state, calls.last(), now));
    }
}

proof fn lemma_keeps_close(m: StreamModel, index: u32)
    requires
        m.tool_calls.contains_key(index),
    ensures
        keeps(m, close_call(m, index)),
{
    let t = m.tool_calls[index];
    let s = close_call(m, index);
    if open_items_have_ids(m) {
        if t.added {
            lemma_call_is_item(t.item_id, t.call_id, t.name, t.arguments, "completed"@);
        }
        assert forall|i: u32| #[trigger] s.state.tool_calls.contains_key(i) implies is_id(
            s.state.tool_calls[i].item_id,
            "fc"@,
        ) && (s.state.tool_calls[i].added ==> s.state.tool_calls[i].name.len() > 0) by {
            assert(m.tool_calls.contains_key(i));
        }
    }
}

proof fn lemma_keeps_closing(m: StreamModel, indices: Seq<u32>)
    requires
        indices.no_duplicates(),
        forall|k: int| 0 <= k < indices.len() ==> m.tool_calls.contains_key(#[trigger] indices[k]),
    ensures
        keeps(m, close_calls(m, indices)),
        forall|i: u32|
            m.tool_calls.contains_key(i) && !indices.contains(i) ==> #[trigger] close_calls(
                m,
                indices,
            ).state.tool_calls.contains_key(i),
    decreases indices.len(),
{
    if indices.len() > 0 {
        let first = indices.drop_last();
        let x = indices.last();
        assert forall|k: int| 0 <= k < first.len() implies m.tool_calls.contains_key(
            #[trigger] first[k],
        ) by {
            assert(first[k] == indices[k]);
        }
        lemma_keeps_closing(m, first);
        let before = close_calls(m, first);
        assert(!first.contains(x));
        assert(m.tool_calls.contains_key(indices[indices.len() - 1]));
        lemma_keeps_close(before.state, x);
        lemma_keeps_then(m, before, close_call(before.state, x));
        assert forall|i: u32| m.tool_calls.contains_key(i) && !indices.contains(i) implies
            #[trigger] close_calls(m, indices).state.tool_calls.contains_key(i) by {
            if first.contains(i) {
                let k = choose|k: int| 0 <= k < first.len() && first[k] == i;
                assert(indices[k] == i);
            }
            assert(indices.contains(x));
            assert(before.state.tool_calls.contains_key(i));
        }
    }
}

proof fn lemma_keeps_finish(m: StreamModel)
    requires
        m.tool_calls.dom().finite(),
    ensures
        keeps(m, on_finish(m)),
{
    let a = close_reasoning(m);
    if m.reasoning_item_id is Some {
        lemma_items_are_items(m.reasoning_item_id->0, m.reasoning_text);
    }
    assert(keeps(m, a));
    let cm = close_message(a.state);
    if m.message_item_id is Some {
        lemma_items_are_items(m.message_item_id->0, m.message_text);
    }
    assert(keeps(a.state, cm));
    lemma_keeps_then(m, a, cm);
    let b = followed_by(a, cm);
    let indices = in_order(b.state.tool_calls.dom());
    crate::translate::call_laws::in_order_is_ascending(b.state.tool_calls.dom());
    assert forall|k: int| 0 <= k < indices.len() implies b.state.tool_calls.contains_key(
        #[trigger] indices[k],
    ) by {
        assert(indices.to_set().contains(indices[k]));
    }
    lemma_keeps_closing(b.state, indices);
    let calls = close_calls(b.state, indices);
    lemma_keeps_then(m, b, calls);
    let c = followed_by(b, calls);
    let done = on_completed(c.state);
    assert(keeps(c.state, done));
    lemma_keeps_then(m, c, done);
}

proof fn lemma_keeps_chunk(m: StreamModel, chunk: ChatChunk, now: u64)
    requires
        m.tool_calls.dom().finite(),
    ensures
        keeps(m, on_chunk(m, chunk, now)),
        on_chunk(m, chunk, now).state.tool_calls.dom().finite(),
{
    let a = on_created(m);
    let b = Step { state: with_usage(a.state, chunk.usage), ..a };
    assert(keeps(m, b));
    let d = texts_of(m, chunk, now);
    if chunk.choices@.len() > 0 {
        let delta = chunk.choices@[0].delta;
        let rs = on_reasoning(b.state, string_view(delta.reasoning_content), now);
        lemma_keeps_texts(b.state, string_view(delta.reasoning_content), now);
        lemma_keeps_then(m, b, rs);
        let c = followed_by(b, rs);
        lemma_keeps_texts(c.state, string_view(delta.content), now);
        lemma_keeps_then(m, c, on_text(c.state, string_view(delta.content), now));
    }
    assert(keeps(m, d));
    lemma_keeps_calls(d.state, pieces_of(chunk), now);
    lemma_keeps_then(m, d, on_tool_calls(d.state, pieces_of(chunk), now));
    let e = before_finish(m, chunk, now);
    crate::translate::balance_laws::chunks_keep_count(m, chunk, now);
    lemma_finite_before_finish(m, chunk, now);
    lemma_chunk_parts(m, chunk, now);
    if finishes(chunk) {
        lemma_keeps_finish(e.state);
        lemma_keeps_then(m, e, on_finish(e.state));
    }
}

proof fn lemma_finite_calls(m: StreamModel, calls: Seq<ChatToolCall>, now: u64)
    requires
        m.tool_calls.dom().finite(),
    ensures
        on_tool_calls(m, calls, now).state.tool_calls.dom().finite(),
    decreases calls.len(),
{
    if calls.len() > 0 {
        lemma_finite_calls(m, calls.drop_last(), now);
        let before = on_tool_calls(m, calls.drop_last(), now).state;
        let tc = calls.last();
        let after = on_tool_call(before, tc, now).state;
        assert(after.tool_calls.dom() =~= before.tool_calls.dom().insert(tc.index));
    }
}

proof fn lemma_finite_before_finish(m: StreamModel, chunk: ChatChunk, now: u64)
    requires
        m.tool_calls.dom().finite(),
    ensures
        before_finish(m, chunk, now).state.tool_calls.dom().finite(),
{
    let d = texts_of(m, chunk, now);
    assert(d.state.tool_calls == m.tool_calls);
    lemma_finite_calls(d.state, pieces_of(chunk), now);
}

proof fn lemma_keeps_run(m: StreamModel, chunks: Seq<ChatChunk>, readings: Seq<Reading>)
    requires
        m.tool_calls.dom().finite(),
    ensures
        keeps(m, run(m, chunks, readings)),
        run(m, chunks, readings).state.tool_calls.dom().finite(),
    decreases chunks.len(),
{
    if chunks.len() > 0 {
        lemma_keeps_run(m, chunks.drop_last(), readings);
        let before = run(m, chunks.drop_last(), readings);
        let r = readings[chunks.len() - 1];
        let at = at_count(before.state, r.count);
        lemma_keeps_chunk(at, chunks.last(), r.now);
        let step = on_chunk(at, chunks.last(), r.now);
        assert(open_items_have_ids(before.state) ==> open_items_have_ids(at));
        assert(keeps(before.state, step));
        lemma_keeps_then(m, before, step);
    }
}

/// Every event of a whole stream says of itself what it should: a response names
/// itself a response, with its status and an identifier; an item that begins has
/// no content yet, and one that is complete has its one piece of content, or a
/// name, its call and its arguments; each is marked with what it is; and no delta
/// is empty.
pub proof fn events_say_what_they_are(
    model: Seq<char>,
    count_before: u64,
    now: u64,
    secs: u64,
    chunks: Seq<ChatChunk>,
    readings: Seq<Reading>,
)
    ensures
        are_described(whole_run(initial(model, count_before, now, secs), chunks, readings).events),
{
    let m = initial(model, count_before, now, secs);
    lemma_id("resp"@, now ^ count_before);
    assert(open_items_have_ids(m));
    let begun = on_created(m);
    assert(keeps(m, begun));
    assert(m.tool_calls.dom() =~= Set::<u32>::empty());
    lemma_keeps_run(begun.state, chunks, readings);
    lemma_keeps_then(m, begun, run(begun.state, chunks, readings));
    let chunked = followed_by(begun, run(begun.state, chunks, readings));
    let end = on_end(chunked.state);
    assert(keeps(chunked.state, end));
    lemma_keeps_then(m, chunked, end);
}

/// The same holds whatever calls come, in whatever order.
pub proof fn events_of_calls_say_what_they_are(
    model: Seq<char>,
    count_before: u64,
    now: u64,
    secs: u64,
    calls: Seq<StreamCall>,
)
    ensures
        are_described(mixed_run(initial(model, count_before, now, secs), calls).events),
{
    let m = initial(model, count_before, now, secs);
    lemma_id("resp"@, now ^ count_before);
    assert(m.tool_calls.dom() =~= Set::<u32>::empty());
    assert(open_items_have_ids(m));
    lemma_keeps_mixed(m, calls);
}

proof fn lemma_keeps_mixed(m: StreamModel, calls: Seq<StreamCall>)
    requires
        m.tool_calls.dom().finite(),
    ensures
        keeps(m, mixed_run(m, calls)),
        mixed_run(m, calls).state.tool_calls.dom().finite(),
    decreases calls.len(),
{
    if calls.len() > 0 {
        lemma_keeps_mixed(m, calls.drop_last());
        let before = mixed_run(m, calls.drop_last());
        let step = on_call(before.state, calls.last());
        match calls.last() {
            StreamCall::Chunk(chunk, r) => {
                let at = at_count(before.state, r.count);
                lemma_keeps_chunk(at, chunk, r.now);
                assert(open_items_have_ids(before.state) ==> open_items_have_ids(at));
            },
            StreamCall::EmitFailed(message) => {
                if open_items_have_ids(before.state) {
                    a_failure_says_why(before.state, message);
                }
            },
            _ => {},
        }
        assert(keeps(before.state, step));
        lemma_keeps_then(m, before, step);
    }
}

/// The completion of a response, where it has not been given out, carries the
/// token count that has come; where it has, there is none.
pub proof fn a_completion_carries_the_count(m: StreamModel)
    ensures
        m.completed_emitted ==> on_completed(m).events.len() == 0,
        !m.completed_emitted ==> {
            &&& on_completed(m).events.len() == 1
            &&& on_completed(m).events[0] matches EventModel::Completed { response, .. }
                && response.usage == m.final_usage
        },
        on_completed(m).state.completed_emitted,
{
}

/// A failure says that the response has failed, and why, in the words that it was
/// given.
pub proof fn a_failure_says_why(m: StreamModel, message: Seq<char>)
    requires
        is_id(m.response_id, "resp"@),
    ensures
        ({
            let events = on_failed(m, message).events;
            &&& events.len() == 1
            &&& is_described(events[0])
            &&& events[0] matches EventModel::Failed { sequence_number, response }
                && sequence_number == m.seq && response.id == m.response_id
                && response.created_at == m.created_at && str_at(response.error, "message"@)
                == Some(message)
        }),
{
    lemma_names();
    let e = on_failed(m, message).events[0];
    match e {
        EventModel::Failed { response, .. } => {
            assert(response.error->Object_0.dom() =~= set!["code"@, "message"@]);
        },
        _ => {},
    }
}

/// The announcement of a tool call carries the name and the id that the call has
/// got, and no arguments; a piece of its arguments carries the same item.
pub proof fn a_call_is_announced_as_it_is(m: StreamModel, tc: ChatToolCall, now: u64)
    ensures
        ({
            let s = on_tool_call(m, tc, now);
            let t = s.state.tool_calls[tc.index];
            forall|k: int|
                0 <= k < s.events.len() ==> match #[trigger] s.events[k] {
                    EventModel::OutputItemAdded { output_index, item, .. } => {
                        &&& output_index == t.output_index
                        &&& str_at(item, "id"@) == Some(t.item_id)
                        &&& str_at(item, "call_id"@) == Some(t.call_id)
                        &&& str_at(item, "name"@) == Some(t.name)
                        &&& str_at(item, "arguments"@) == Some(Seq::<char>::empty())
                    },
                    EventModel::FunctionCallArgumentsDelta { output_index, item_id, .. } =>
                        output_index == t.output_index && item_id == t.item_id,
                    _ => false,
                }
        }),
{
    lemma_names();
    reveal_strlit("");
    assert(""@ =~= Seq::<char>::empty());
    let l = label_call(m, tc, now);
    let a = announce_call(l, tc.index);
    let b = add_arguments(a.state, tc.index, call_arguments(tc));
    let s = on_tool_call(m, tc, now);
    assert forall|k: int| 0 <= k < s.events.len() implies s.events[k] == (if k
        < a.events.len() {
        a.events[k]
    } else {
        b.events[k - a.events.len()]
    }) by {}
}

/// The labels of a tool call: one that begins without an id gets one of its own;
/// an id that is not empty takes the place of the one before, and the first name
/// that is not empty stays; a piece says nothing of any other call.
pub proof fn a_piece_labels_its_call(m: StreamModel, tc: ChatToolCall, now: u64)
    ensures
        ({
            let after = on_tool_call(m, tc, now).state.tool_calls;
            let t = after[tc.index];
            let id = match tc.id {
                Some(id) => id@,
                None => Seq::empty(),
            };
            let open = m.tool_calls.contains_key(tc.index);
            let was = m.tool_calls[tc.index];
            &&& after.contains_key(tc.index)
            &&& forall|i: u32|
                i != tc.index ==> #[trigger] after.contains_key(i) == m.tool_calls.contains_key(i)
                    && after[i] == m.tool_calls[i]
            &&& id.len() > 0 ==> t.call_id == id
            &&& id.len() == 0 && open ==> t.call_id == was.call_id
            &&& tc.id is None && !open ==> is_id(t.call_id, "call"@)
            &&& open && was.name.len() > 0 ==> t.name == was.name
            &&& !open || was.name.len() == 0 ==> t.name == piece_name(tc)
            &&& t.arguments == (if open {
                was.arguments
            } else {
                Seq::empty()
            }) + piece_arguments(tc)
            &&& open ==> t.item_id == was.item_id && t.output_index == was.output_index
            &&& !open ==> is_id(t.item_id, "fc"@) && t.output_index == m.next_tool_output_index
        }),
{
    lemma_id("fc"@, now ^ m.id_count);
    lemma_id("call"@, now ^ crate::translate::stream_model::next_u64(m.id_count));
    let opened = open_call(m, tc, now);
    let t = opened.tool_calls[tc.index];
    let none = Seq::<char>::empty();
    if call_arguments(tc) is None || call_arguments(tc)->0.len() == 0 {
        assert(t.arguments + piece_arguments(tc) =~= t.arguments);
    }
    if t.name.len() == 0 {
        assert(t.name =~= none);
    }
}

/// The end of the upstream's stream shows and completes nothing more: it
/// completes the response, with the last token count that came, where that has
/// not been done.
pub proof fn the_end_only_completes_the_response(
    m: StreamModel,
    chunks: Seq<ChatChunk>,
    readings: Seq<Reading>,
)
    ensures
        ({
            let s = run(m, chunks, readings).state;
            let events = on_end(s).events;
            &&& s.completed_emitted ==> events.len() == 0
            &&& !s.completed_emitted ==> {
                &&& events.len() == 1
                &&& events[0] matches EventModel::Completed { response, .. } && response.usage
                    == last_usage(m.final_usage, chunks)
            }
        }),
{
    usage_is_the_last_one_brought(m, chunks, readings);
}

// ---------------------------------------------------------------------------
// How many identifiers are made

/// How many identifiers pieces of tool calls take: one for each call that they
/// open, and one more where it comes without an id.
pub open spec fn ids_for_calls(m: StreamModel, calls: Seq<ChatToolCall>, now: u64) -> nat
    decreases calls.len(),
{
    if calls.len() == 0 {
        0
    } else {
        let before = on_tool_calls(m, calls.drop_last(), now).state;
        let tc = calls.last();
        ids_for_calls(m, calls.drop_last(), now) + if before.tool_calls.contains_key(tc.index) {
            0nat
        } else if tc.id is Some {
            1nat
        } else {
            2nat
        }
    }
}

/// Whether an event begins a message or a reasoning.
pub open spec fn begins_text() -> spec_fn(EventModel) -> bool {
    |e: EventModel|
        match e {
            EventModel::OutputItemAdded { item, .. } => str_at(item, "type"@) == Some(
                "message"@,
            ) || str_at(item, "type"@) == Some("reasoning"@),
            _ => false,
        }
}

/// How many identifiers one piece of a tool call takes.
spec fn ids_for_call(m: StreamModel, tc: ChatToolCall) -> nat {
    if m.tool_calls.contains_key(tc.index) {
        0
    } else if tc.id is Some {
        1
    } else {
        2
    }
}

proof fn lemma_ids_for_call(m: StreamModel, tc: ChatToolCall, now: u64)
    ensures
        on_tool_call(m, tc, now).state.id_count == number_after(
            m.id_count,
            ids_for_call(m, tc),
        ),
        count(on_tool_call(m, tc, now).events, begins_text()) == 0,
{
    lemma_names();
    lemma_kinds_differ();
    let a = announce_call(label_call(m, tc, now), tc.index);
    let b = add_arguments(a.state, tc.index, call_arguments(tc));
    lemma_begins_nothing(a.events);
    lemma_begins_nothing(b.events);
    lemma_count_concat(a.events, b.events, begins_text());
}

proof fn lemma_ids_for_calls(m: StreamModel, calls: Seq<ChatToolCall>, now: u64)
    ensures
        on_tool_calls(m, calls, now).state.id_count == number_after(
            m.id_count,
            ids_for_calls(m, calls, now),
        ),
        count(on_tool_calls(m, calls, now).events, begins_text()) == 0,
    decreases calls.len(),
{
    if calls.len() > 0 {
        let before = on_tool_calls(m, calls.drop_last(), now);
        lemma_ids_for_calls(m, calls.drop_last(), now);
        let tc = calls.last();
        let step = on_tool_call(before.state, tc, now);
        lemma_ids_for_call(before.state, tc, now);
        lemma_count_concat(before.events, step.events, begins_text());
        lemma_number_after(
            m.id_count,
            ids_for_calls(m, calls.drop_last(), now),
            ids_for_call(before.state, tc),
        );
    }
}

proof fn lemma_begins_nothing(events: Seq<EventModel>)
    requires
        forall|i: int| 0 <= i < events.len() ==> !begins_text()(#[trigger] events[i]),
    ensures
        count(events, begins_text()) == 0,
    decreases events.len(),
{
    if events.len() > 0 {
        let before = events.drop_last();
        assert forall|i: int| 0 <= i < before.len() implies !begins_text()(
            #[trigger] before[i],
        ) by {
            assert(before[i] == events[i]);
        }
        lemma_begins_nothing(before);
        assert(!begins_text()(events[events.len() - 1]));
    }
}

proof fn lemma_ids_for_texts(m: StreamModel, t: Option<Seq<char>>, now: u64)
    ensures
        on_reasoning(m, t, now).state.id_count == number_after(
            m.id_count,
            count(on_reasoning(m, t, now).events, begins_text()),
        ),
        on_text(m, t, now).state.id_count == number_after(
            m.id_count,
            count(on_text(m, t, now).events, begins_text()),
        ),
{
    lemma_names();
    lemma_kinds_differ();
    reveal_with_fuel(count, 3);
    if t is Some && t->0.len() > 0 {
        let a = open_reasoning(m, now);
        let b = add_reasoning(a.state, t->0);
        lemma_count_concat(a.events, b.events, begins_text());
        lemma_begins_nothing(b.events);
        let c = open_message(m, now);
        let d = add_text(c.state, t->0);
        lemma_count_concat(c.events, d.events, begins_text());
        lemma_begins_nothing(d.events);
    }
}

proof fn lemma_closing_takes_no_ids(m: StreamModel, indices: Seq<u32>)
    ensures
        close_calls(m, indices).state.id_count == m.id_count,
        count(close_calls(m, indices).events, begins_text()) == 0,
    decreases indices.len(),
{
    if indices.len() > 0 {
        let before = close_calls(m, indices.drop_last());
        lemma_closing_takes_no_ids(m, indices.drop_last());
        let last = close_call(before.state, indices.last());
        lemma_begins_nothing(last.events);
        lemma_count_concat(before.events, last.events, begins_text());
    }
}

proof fn lemma_finish_takes_no_ids(m: StreamModel)
    ensures
        on_finish(m).state.id_count == m.id_count,
        count(on_finish(m).events, begins_text()) == 0,
{
    let x = close_reasoning(m);
    let y = close_message(x.state);
    let xy = followed_by(x, y);
    let indices = in_order(xy.state.tool_calls.dom());
    let z = close_calls(xy.state, indices);
    let xyz = followed_by(xy, z);
    let done = on_completed(xyz.state);
    lemma_begins_nothing(x.events);
    lemma_begins_nothing(y.events);
    lemma_count_concat(x.events, y.events, begins_text());
    lemma_closing_takes_no_ids(xy.state, indices);
    lemma_count_concat(xy.events, z.events, begins_text());
    lemma_begins_nothing(done.events);
    lemma_count_concat(xyz.events, done.events, begins_text());
}

proof fn lemma_ids_before_calls(m: StreamModel, chunk: ChatChunk, now: u64)
    ensures
        ({
            let d = texts_of(m, chunk, now);
            d.state.id_count == number_after(m.id_count, count(d.events, begins_text()))
        }),
{
    let a = on_created(m);
    let b = Step { state: with_usage(a.state, chunk.usage), ..a };
    lemma_begins_nothing(b.events);
    if chunk.choices@.len() > 0 {
        let delta = chunk.choices@[0].delta;
        let rs = on_reasoning(b.state, string_view(delta.reasoning_content), now);
        lemma_ids_for_texts(b.state, string_view(delta.reasoning_content), now);
        lemma_count_concat(b.events, rs.events, begins_text());
        let c = followed_by(b, rs);
        lemma_ids_for_texts(c.state, string_view(delta.content), now);
        let tx = on_text(c.state, string_view(delta.content), now);
        lemma_count_concat(c.events, tx.events, begins_text());
        lemma_number_after(
            m.id_count,
            count(rs.events, begins_text()),
            count(tx.events, begins_text()),
        );
    }
}

/// Every identifier that a chunk makes takes a number of its own: the count grows
/// by one for each message and each reasoning that begins, by one for each tool
/// call that is opened, and by one more for a call that comes without an id.
pub proof fn identifiers_are_counted(m: StreamModel, chunk: ChatChunk, now: u64)
    ensures
        ({
            let s = on_chunk(m, chunk, now);
            let d = texts_of(m, chunk, now);
            s.state.id_count == number_after(
                m.id_count,
                count(s.events, begins_text()) + ids_for_calls(d.state, pieces_of(chunk), now),
            )
        }),
{
    let d = texts_of(m, chunk, now);
    lemma_ids_before_calls(m, chunk, now);
    let calls = on_tool_calls(d.state, pieces_of(chunk), now);
    lemma_ids_for_calls(d.state, pieces_of(chunk), now);
    lemma_count_concat(d.events, calls.events, begins_text());
    lemma_number_after(
        m.id_count,
        count(d.events, begins_text()),
        ids_for_calls(d.state, pieces_of(chunk), now),
    );
    let e = before_finish(m, chunk, now);
    lemma_chunk_parts(m, chunk, now);
    if finishes(chunk) {
        let f = on_finish(e.state);
        lemma_finish_takes_no_ids(e.state);
        lemma_count_concat(e.events, f.events, begins_text());
    }
}

// ---------------------------------------------------------------------------
// The order of events

/// The place of an event among those of a chunk: the response begins, the
/// reasoning, the message, the tool calls, what is complete, the response ends.
pub open spec fn place_of(e: EventModel) -> int {
    match e {
        EventModel::Created { .. } => 0,
        EventModel::OutputItemAdded { item, .. } => if str_at(item, "type"@) == Some(
            "reasoning"@,
        ) {
            1
        } else if str_at(item, "type"@) == Some("message"@) {
            2
        } else {
            3
        },
        EventModel::ReasoningTextDelta { .. } => 1,
        EventModel::OutputTextDelta { .. } => 2,
        EventModel::FunctionCallArgumentsDelta { .. } => 3,
        EventModel::OutputItemDone { .. } => 4,
        EventModel::Completed { .. } => 5,
        EventModel::Failed { .. } => 6,
    }
}

/// Whether events are in the order of their places, from `low` to `high`.
pub open spec fn in_places(events: Seq<EventModel>, low: int, high: int) -> bool {
    &&& forall|i: int|
        0 <= i < events.len() ==> low <= place_of(#[trigger] events[i]) <= high
    &&& forall|i: int, j: int|
        0 <= i < j < events.len() ==> place_of(#[trigger] events[i]) <= place_of(
            #[trigger] events[j],
        )
}

proof fn lemma_in_places_then(
    a: Seq<EventModel>,
    b: Seq<EventModel>,
    low: int,
    mid: int,
    high: int,
)
    requires
        in_places(a, low, mid),
        in_places(b, mid, high),
        low <= mid <= high,
    ensures
        in_places(a + b, low, high),
{
    let all = a + b;
    assert forall|i: int| 0 <= i < all.len() implies low <= place_of(#[trigger] all[i]) <= high
        && (i < a.len() ==> place_of(all[i]) <= mid) && (i >= a.len() ==> mid <= place_of(
        all[i],
    )) by {
        if i < a.len() {
            assert(all[i] == a[i]);
        } else {
            assert(all[i] == b[i - a.len()]);
        }
    }
    assert forall|i: int, j: int| 0 <= i < j < all.len() implies place_of(#[trigger] all[i])
        <= place_of(#[trigger] all[j]) by {
        if j < a.len() {
            assert(all[i] == a[i] && all[j] == a[j]);
        } else if i >= a.len() {
            assert(all[i] == b[i - a.len()] && all[j] == b[j - a.len()]);
        }
    }
}

proof fn lemma_kinds_differ()
    ensures
        "reasoning"@ != "message"@,
        "function_call"@ != "reasoning"@,
        "function_call"@ != "message"@,
{
    reveal_strlit("reasoning");
    reveal_strlit("message");
    reveal_strlit("function_call");
    assert("reasoning"@.len() == 9 && "message"@.len() == 7 && "function_call"@.len() == 13);
}

proof fn lemma_calls_in_places(m: StreamModel, calls: Seq<ChatToolCall>, now: u64)
    ensures
        in_places(on_tool_calls(m, calls, now).events, 3, 3),
    decreases calls.len(),
{
    if calls.len() > 0 {
        lemma_names();
        lemma_kinds_differ();
        let before = on_tool_calls(m, calls.drop_last(), now);
        lemma_calls_in_places(m, calls.drop_last(), now);
        let tc = calls.last();
        let a = announce_call(label_call(before.state, tc, now), tc.index);
        let b = add_arguments(a.state, tc.index, call_arguments(tc));
        assert(in_places(a.events, 3, 3));
        assert(in_places(b.events, 3, 3));
        lemma_in_places_then(a.events, b.events, 3, 3, 3);
        lemma_in_places_then(before.events, a.events + b.events, 3, 3, 3);
    }
}

proof fn lemma_closing_in_places(m: StreamModel, indices: Seq<u32>)
    ensures
        in_places(close_calls(m, indices).events, 4, 4),
    decreases indices.len(),
{
    if indices.len() > 0 {
        let before = close_calls(m, indices.drop_last());
        lemma_closing_in_places(m, indices.drop_last());
        let last = close_call(before.state, indices.last());
        assert(in_places(last.events, 4, 4));
        lemma_in_places_then(before.events, last.events, 4, 4, 4);
    }
}

/// The events of a chunk come in order: the response begins, then the reasoning,
/// then the text, then the tool calls, then what is complete, and last the end of
/// the response.
pub proof fn events_of_a_chunk_are_in_order(m: StreamModel, chunk: ChatChunk, now: u64)
    ensures
        in_places(on_chunk(m, chunk, now).events, 0, 5),
{
    lemma_names();
    lemma_kinds_differ();
    let a = on_created(m);
    let b = Step { state: with_usage(a.state, chunk.usage), ..a };
    assert(in_places(b.events, 0, 0));
    let d = texts_of(m, chunk, now);
    if chunk.choices@.len() > 0 {
        let delta = chunk.choices@[0].delta;
        let rs = on_reasoning(b.state, string_view(delta.reasoning_content), now);
        assert(in_places(rs.events, 1, 1));
        assert(in_places(b.events, 0, 1));
        lemma_in_places_then(b.events, rs.events, 0, 1, 1);
        let c = followed_by(b, rs);
        let tx = on_text(c.state, string_view(delta.content), now);
        assert(in_places(tx.events, 2, 2));
        assert(in_places(c.events, 0, 2));
        lemma_in_places_then(c.events, tx.events, 0, 2, 2);
    }
    let calls = on_tool_calls(d.state, pieces_of(chunk), now);
    lemma_calls_in_places(d.state, pieces_of(chunk), now);
    assert(in_places(d.events, 0, 3));
    lemma_in_places_then(d.events, calls.events, 0, 3, 3);
    let e = before_finish(m, chunk, now);
    lemma_chunk_parts(m, chunk, now);
    if finishes(chunk) {
        let x = close_reasoning(e.state);
        let y = close_message(x.state);
        let xy = followed_by(x, y);
        let indices = in_order(xy.state.tool_calls.dom());
        let z = close_calls(xy.state, indices);
        let xyz = followed_by(xy, z);
        let done = on_completed(xyz.state);
        assert(in_places(x.events, 4, 4));
        assert(in_places(y.events, 4, 4));
        lemma_in_places_then(x.events, y.events, 4, 4, 4);
        lemma_closing_in_places(xy.state, indices);
        lemma_in_places_then(xy.events, z.events, 4, 4, 4);
        assert(in_places(xyz.events, 4, 5));
        assert(in_places(done.events, 5, 5));
        lemma_in_places_then(xyz.events, done.events, 4, 5, 5);
        assert(in_places(e.events, 0, 4));
        lemma_in_places_then(e.events, on_finish(e.state).events, 0, 4, 5);
    }
}

} // verus!
