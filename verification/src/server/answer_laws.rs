//! What an answer that is not streamed says.

use crate::ids::alphabet;
use crate::ids::id_chars_are_spelled;
use crate::json::json_from_str;
use crate::json::Json;
use crate::json_laws::array_at;
use crate::json_laws::at;
use crate::json_laws::has_only;
use crate::json_laws::put_together;
use crate::json_laws::str_at;
use crate::server::answer::answer_body;
use crate::server::answer::answer_in;
use crate::server::answer::call_at;
use crate::server::answer::no_answer;
use crate::server::answer::output_items;
use crate::server::answer::piece_index;
use crate::server::answer::text_events;
use crate::server::answer::with_chunk;
use crate::server::answer::with_payload;
use crate::server::answer::with_payloads;
use crate::server::answer::with_pieces;
use crate::server::answer::AnswerModel;
use crate::server::answer::CallModel;
use crate::sse::line_event;
use crate::sse::up_to_done;
use crate::sse::SseModel;
use crate::text::lines;
use crate::text_laws::lines_are_the_text;
use crate::text_laws::lines_say_what_each_says;
use crate::text_laws::with_line_feeds;
use crate::translate::call_laws::in_order_is_ascending;
use crate::translate::message_laws::lemma_on_lines_push;
use crate::translate::message_laws::on_lines;
use crate::translate::stream_model::ascending;
use crate::translate::stream_model::in_order;
use vstd::prelude::*;

verus! {

// ---------------------------------------------------------------------------
// What the payloads bring

/// The JSON that an event carries, if it carries some.
pub open spec fn value_in(e: SseModel) -> Option<Json> {
    match e {
        SseModel::Data(payload) => match json_from_str(payload) {
            Ok(v) => Some(v),
            Err(_) => None,
        },
        SseModel::Done => None,
    }
}

/// What a chunk has at `choices[0].delta`; null where it has nothing there.
pub open spec fn first_delta_in(chunk: Json) -> Json {
    match array_at(chunk, "choices"@) {
        Some(choices) => if choices.len() > 0 && at(choices[0], "delta"@) is Some {
            at(choices[0], "delta"@)->0
        } else {
            Json::Null
        },
        None => Json::Null,
    }
}

/// The string at `choices[0].delta.content` of what an event carries.
pub open spec fn content_brought(e: SseModel) -> Option<Seq<char>> {
    match value_in(e) {
        Some(chunk) => str_at(first_delta_in(chunk), "content"@),
        None => None,
    }
}

/// What an event carries under `usage`.
pub open spec fn usage_brought(e: SseModel) -> Option<Json> {
    match value_in(e) {
        Some(chunk) => at(chunk, "usage"@),
        None => None,
    }
}

/// The pieces of tool calls at `choices[0].delta.tool_calls` of what an event
/// carries.
pub open spec fn pieces_brought(e: SseModel) -> Seq<Json> {
    match value_in(e) {
        Some(chunk) => match array_at(first_delta_in(chunk), "tool_calls"@) {
            Some(pieces) => pieces,
            None => Seq::empty(),
        },
        None => Seq::empty(),
    }
}

/// The pieces of tool calls that events carry, one after another.
pub open spec fn all_pieces_brought(events: Seq<SseModel>) -> Seq<Json>
    decreases events.len(),
{
    if events.len() == 0 {
        Seq::empty()
    } else {
        all_pieces_brought(events.drop_last()) + pieces_brought(events.last())
    }
}

/// The index of a piece: the number under `index`, cut to 32 bits; 0 without one.
pub open spec fn index_of_piece(p: Json) -> int {
    match at(p, "index"@) {
        Some(Json::Unsigned(n)) => n as int % 0x1_0000_0000,
        _ => 0,
    }
}

/// The arguments in a piece of the call with the index `i`.
pub open spec fn arguments_for(p: Json, i: u32) -> Option<Seq<char>> {
    if index_of_piece(p) == i && at(p, "function"@) is Some {
        str_at(at(p, "function"@)->0, "arguments"@)
    } else {
        None
    }
}

/// The id in a piece of the call with the index `i`, unless it is empty.
pub open spec fn id_for(p: Json, i: u32) -> Option<Seq<char>> {
    if index_of_piece(p) == i && str_at(p, "id"@) is Some && str_at(p, "id"@)->0.len() > 0 {
        str_at(p, "id"@)
    } else {
        None
    }
}

/// The name in a piece of the call with the index `i`, unless it is empty.
pub open spec fn name_for(p: Json, i: u32) -> Option<Seq<char>> {
    if index_of_piece(p) == i && at(p, "function"@) is Some {
        match str_at(at(p, "function"@)->0, "name"@) {
            Some(name) => if name.len() > 0 {
                Some(name)
            } else {
                None
            },
            None => None,
        }
    } else {
        None
    }
}

/// The last of texts; empty where there is none.
pub open spec fn last_text(texts: Seq<Seq<char>>) -> Seq<char> {
    if texts.len() > 0 {
        texts.last()
    } else {
        Seq::empty()
    }
}

/// Whether a call holds what the pieces with the index `i` say of it: all their
/// arguments, put together, the last id and the last name.
pub open spec fn holds_pieces(c: CallModel, pieces: Seq<Json>, i: u32) -> bool {
    &&& c.arguments == put_together(pieces.filter_map(|p: Json| arguments_for(p, i)))
    &&& c.call_id == last_text(pieces.filter_map(|p: Json| id_for(p, i)))
    &&& c.name == last_text(pieces.filter_map(|p: Json| name_for(p, i)))
}

/// Whether some piece has the index `i`.
pub open spec fn is_mentioned(pieces: Seq<Json>, i: u32) -> bool {
    exists|k: int| 0 <= k < pieces.len() && index_of_piece(#[trigger] pieces[k]) == i
}

/// Whether an answer holds what events bring: the content is that of all
/// payloads, put together; there is one call for each index that the pieces
/// mention, with what its pieces say; and the token count is the last one.
pub open spec fn holds_all(a: AnswerModel, events: Seq<SseModel>) -> bool {
    let pieces = all_pieces_brought(events);
    let usages = events.filter_map(|e: SseModel| usage_brought(e));
    &&& a.content == put_together(events.filter_map(|e: SseModel| content_brought(e)))
    &&& a.calls.dom().finite()
    &&& forall|i: u32| #[trigger] a.calls.contains_key(i) <==> is_mentioned(pieces, i)
    &&& forall|i: u32| #[trigger]
        a.calls.contains_key(i) ==> holds_pieces(a.calls[i], pieces, i)
    &&& a.usage == if usages.len() > 0 {
        Some(usages.last())
    } else {
        None
    }
}

proof fn lemma_put_together_push(texts: Seq<Seq<char>>, t: Seq<char>)
    ensures
        put_together(texts + seq![t]) == put_together(texts) + t,
{
    assert((texts + seq![t]).drop_last() =~= texts);
}

proof fn lemma_index(p: Json)
    ensures
        piece_index(p) == index_of_piece(p),
{
}

/// What holds of the calls that pieces make.
spec fn calls_hold(calls: Map<u32, CallModel>, pieces: Seq<Json>) -> bool {
    &&& calls.dom().finite()
    &&& forall|i: u32| #[trigger] calls.contains_key(i) <==> is_mentioned(pieces, i)
    &&& forall|i: u32| holds_pieces(#[trigger] call_at(calls, i), pieces, i)
}

proof fn lemma_none_mentioned(i: u32)
    ensures
        holds_pieces(crate::server::answer::no_parts(), Seq::empty(), i),
{
    let none = Seq::<Json>::empty();
    assert(none.filter_map(|p: Json| arguments_for(p, i)) =~= Seq::<Seq<char>>::empty());
    assert(none.filter_map(|p: Json| id_for(p, i)) =~= Seq::<Seq<char>>::empty());
    assert(none.filter_map(|p: Json| name_for(p, i)) =~= Seq::<Seq<char>>::empty());
}

proof fn lemma_piece_more(c: CallModel, pieces: Seq<Json>, p: Json, i: u32)
    requires
        holds_pieces(c, pieces, i),
    ensures
        index_of_piece(p) == i ==> holds_pieces(
            crate::server::answer::with_piece(c, p),
            pieces.push(p),
            i,
        ),
        index_of_piece(p) != i ==> holds_pieces(c, pieces.push(p), i),
{
    let f = |p: Json| arguments_for(p, i);
    let g = |p: Json| id_for(p, i);
    let h = |p: Json| name_for(p, i);
    let all = pieces.push(p);
    assert(all.drop_last() =~= pieces);
    let with = crate::server::answer::with_piece(c, p);
    assert(f(p) == arguments_for(p, i));
    assert(g(p) == id_for(p, i));
    assert(h(p) == name_for(p, i));
    if index_of_piece(p) == i {
        match arguments_for(p, i) {
            Some(t) => {
                lemma_put_together_push(pieces.filter_map(f), t);
            },
            None => {},
        }
    }
}

proof fn lemma_calls_hold(
    calls: Map<u32, CallModel>,
    before: Seq<Json>,
    pieces: Seq<Json>,
)
    requires
        calls_hold(calls, before),
    ensures
        calls_hold(with_pieces(calls, pieces), before + pieces),
    decreases pieces.len(),
{
    if pieces.len() == 0 {
        assert(before + pieces =~= before);
    } else {
        let first = pieces.drop_last();
        let p = pieces.last();
        lemma_calls_hold(calls, before, first);
        let so_far = with_pieces(calls, first);
        let said = before + first;
        let after = with_pieces(calls, pieces);
        lemma_index(p);
        assert(said.push(p) =~= before + pieces);
        let all = said.push(p);
        assert(after.dom() =~= so_far.dom().insert(piece_index(p)));
        assert forall|i: u32| #[trigger] after.contains_key(i) <==> is_mentioned(all, i) by {
            if is_mentioned(said, i) {
                let k = choose|k: int|
                    0 <= k < said.len() && index_of_piece(#[trigger] said[k]) == i;
                assert(all[k] == said[k]);
            }
            if i == piece_index(p) {
                assert(all[said.len() as int] == p);
            }
            if is_mentioned(all, i) && i != piece_index(p) {
                let k = choose|k: int|
                    0 <= k < all.len() && index_of_piece(#[trigger] all[k]) == i;
                assert(all[k] == said[k]);
            }
            assert(so_far.contains_key(i) <==> is_mentioned(said, i));
        }
        assert forall|i: u32| holds_pieces(#[trigger] call_at(after, i), all, i) by {
            assert(holds_pieces(call_at(so_far, i), said, i));
            lemma_piece_more(call_at(so_far, i), said, p, i);
        }
    }
}

/// An answer holds what its payloads bring, read off their JSON.
pub proof fn an_answer_holds_what_came(events: Seq<SseModel>)
    ensures
        holds_all(with_payloads(no_answer(), events), events),
{
    lemma_holds_so_far(events);
    let a = with_payloads(no_answer(), events);
    let pieces = all_pieces_brought(events);
    assert forall|i: u32| #[trigger] a.calls.contains_key(i) implies holds_pieces(
        a.calls[i],
        pieces,
        i,
    ) by {
        assert(holds_pieces(call_at(a.calls, i), pieces, i));
    }
}

proof fn lemma_holds_so_far(events: Seq<SseModel>)
    ensures
        ({
            let a = with_payloads(no_answer(), events);
            let usages = events.filter_map(|e: SseModel| usage_brought(e));
            &&& a.content == put_together(
                events.filter_map(|e: SseModel| content_brought(e)),
            )
            &&& calls_hold(a.calls, all_pieces_brought(events))
            &&& a.usage == if usages.len() > 0 {
                Some(usages.last())
            } else {
                None
            }
        }),
    decreases events.len(),
{
    let f = |e: SseModel| content_brought(e);
    let g = |e: SseModel| usage_brought(e);
    if events.len() == 0 {
        assert(events.filter_map(f) =~= Seq::<Seq<char>>::empty());
        assert(events.filter_map(g) =~= Seq::<Json>::empty());
        let a = no_answer();
        assert forall|i: u32| holds_pieces(#[trigger] call_at(a.calls, i), Seq::empty(), i) by {
            lemma_none_mentioned(i);
        }
        assert(a.calls.dom() =~= Set::<u32>::empty());
    } else {
        let first = events.drop_last();
        let e = events.last();
        lemma_holds_so_far(first);
        let before = with_payloads(no_answer(), first);
        let said = all_pieces_brought(first);
        assert(f(e) == content_brought(e));
        assert(g(e) == usage_brought(e));
        match content_brought(e) {
            Some(t) => {
                lemma_put_together_push(first.filter_map(f), t);
            },
            None => {},
        }
        lemma_calls_hold(before.calls, said, pieces_brought(e));
        match value_in(e) {
            Some(chunk) => {
                let after = with_chunk(before, chunk);
                assert(with_payload(before, e) == after);
                assert(after.calls == with_pieces(before.calls, pieces_brought(e)));
            },
            None => {
                assert(with_payload(before, e) == before);
                assert(pieces_brought(e) =~= Seq::<Json>::empty());
                assert(said + pieces_brought(e) =~= said);
            },
        }
    }
}

// ---------------------------------------------------------------------------
// What the response says

/// Whether a text is an identifier: a prefix and sixteen characters of the
/// alphabet.
pub open spec fn is_short_id(s: Option<Seq<char>>, prefix: Seq<char>) -> bool {
    &&& s is Some
    &&& s->0.len() == prefix.len() + 16
    &&& prefix.is_prefix_of(s->0)
    &&& forall|i: int| prefix.len() <= i < s->0.len() ==> alphabet().contains(#[trigger] s->0[i])
}

/// Whether an item is a message with this text that is complete.
pub open spec fn is_message_with(item: Json, text: Seq<char>) -> bool {
    let parts = array_at(item, "content"@)->0;
    &&& has_only(item, set!["type"@, "id"@, "role"@, "status"@, "content"@])
    &&& str_at(item, "type"@) == Some("message"@)
    &&& is_short_id(str_at(item, "id"@), "msg_"@)
    &&& str_at(item, "role"@) == Some("assistant"@)
    &&& str_at(item, "status"@) == Some("completed"@)
    &&& array_at(item, "content"@) is Some
    &&& parts.len() == 1
    &&& has_only(parts[0], set!["type"@, "text"@])
    &&& str_at(parts[0], "type"@) == Some("output_text"@)
    &&& str_at(parts[0], "text"@) == Some(text)
}

/// Whether an item is a tool call that is complete.
pub open spec fn is_call_with(item: Json, c: CallModel) -> bool {
    &&& has_only(
        item,
        set!["type"@, "id"@, "call_id"@, "name"@, "arguments"@, "status"@],
    )
    &&& str_at(item, "type"@) == Some("function_call"@)
    &&& is_short_id(str_at(item, "id"@), "fc_"@)
    &&& str_at(item, "call_id"@) == Some(c.call_id)
    &&& str_at(item, "name"@) == Some(c.name)
    &&& str_at(item, "arguments"@) == Some(c.arguments)
    &&& str_at(item, "status"@) == Some("completed"@)
}

/// Whether items are those of an answer: first its message, unless it is empty,
/// then its tool calls, each once, from the smallest index up.
pub open spec fn are_items_of(items: Seq<Json>, a: AnswerModel) -> bool {
    let first: int = if a.content.len() > 0 {
        1
    } else {
        0
    };
    &&& a.content.len() > 0 ==> items.len() > 0 && is_message_with(items[0], a.content)
    &&& exists|indices: Seq<u32>|
        {
            &&& #[trigger] ascending(indices)
            &&& indices.to_set() == a.calls.dom()
            &&& items.len() == first + indices.len()
            &&& forall|k: int|
                0 <= k < indices.len() ==> is_call_with(
                    items[first + k],
                    a.calls[#[trigger] indices[k]],
                )
        }
}

/// The names in a response and in its items differ.
proof fn lemma_body_names_differ()
    ensures
        "type"@ != "id"@,
        "type"@ != "role"@,
        "type"@ != "status"@,
        "type"@ != "content"@,
        "type"@ != "text"@,
        "type"@ != "call_id"@,
        "type"@ != "name"@,
        "type"@ != "arguments"@,
        "type"@ != "object"@,
        "type"@ != "created_at"@,
        "type"@ != "model"@,
        "type"@ != "output"@,
        "type"@ != "usage"@,
        "id"@ != "role"@,
        "id"@ != "status"@,
        "id"@ != "content"@,
        "id"@ != "text"@,
        "id"@ != "call_id"@,
        "id"@ != "name"@,
        "id"@ != "arguments"@,
        "id"@ != "object"@,
        "id"@ != "created_at"@,
        "id"@ != "model"@,
        "id"@ != "output"@,
        "id"@ != "usage"@,
        "role"@ != "status"@,
        "role"@ != "content"@,
        "role"@ != "text"@,
        "role"@ != "call_id"@,
        "role"@ != "name"@,
        "role"@ != "arguments"@,
        "role"@ != "object"@,
        "role"@ != "created_at"@,
        "role"@ != "model"@,
        "role"@ != "output"@,
        "role"@ != "usage"@,
        "status"@ != "content"@,
        "status"@ != "text"@,
        "status"@ != "call_id"@,
        "status"@ != "name"@,
        "status"@ != "arguments"@,
        "status"@ != "object"@,
        "status"@ != "created_at"@,
        "status"@ != "model"@,
        "status"@ != "output"@,
        "status"@ != "usage"@,
        "content"@ != "text"@,
        "content"@ != "call_id"@,
        "content"@ != "name"@,
        "content"@ != "arguments"@,
        "content"@ != "object"@,
        "content"@ != "created_at"@,
        "content"@ != "model"@,
        "content"@ != "output"@,
        "content"@ != "usage"@,
        "text"@ != "call_id"@,
        "text"@ != "name"@,
        "text"@ != "arguments"@,
        "text"@ != "object"@,
        "text"@ != "created_at"@,
        "text"@ != "model"@,
        "text"@ != "output"@,
        "text"@ != "usage"@,
        "call_id"@ != "name"@,
        "call_id"@ != "arguments"@,
        "call_id"@ != "object"@,
        "call_id"@ != "created_at"@,
        "call_id"@ != "model"@,
        "call_id"@ != "output"@,
        "call_id"@ != "usage"@,
        "name"@ != "arguments"@,
        "name"@ != "object"@,
        "name"@ != "created_at"@,
        "name"@ != "model"@,
        "name"@ != "output"@,
        "name"@ != "usage"@,
        "arguments"@ != "object"@,
        "arguments"@ != "created_at"@,
        "arguments"@ != "model"@,
        "arguments"@ != "output"@,
        "arguments"@ != "usage"@,
        "object"@ != "created_at"@,
        "object"@ != "model"@,
        "object"@ != "output"@,
        "object"@ != "usage"@,
        "created_at"@ != "model"@,
        "created_at"@ != "output"@,
        "created_at"@ != "usage"@,
        "model"@ != "output"@,
        "model"@ != "usage"@,
        "output"@ != "usage"@,
{
    reveal_strlit("type");
    reveal_strlit("id");
    reveal_strlit("role");
    reveal_strlit("status");
    reveal_strlit("content");
    reveal_strlit("text");
    reveal_strlit("call_id");
    reveal_strlit("name");
    reveal_strlit("arguments");
    reveal_strlit("object");
    reveal_strlit("created_at");
    reveal_strlit("model");
    reveal_strlit("output");
    reveal_strlit("usage");
    assert("type"@.len() == 4);
    assert("id"@.len() == 2);
    assert("role"@.len() == 4);
    assert("status"@.len() == 6);
    assert("content"@.len() == 7);
    assert("text"@.len() == 4);
    assert("call_id"@.len() == 7);
    assert("name"@.len() == 4);
    assert("arguments"@.len() == 9);
    assert("object"@.len() == 6);
    assert("created_at"@.len() == 10);
    assert("model"@.len() == 5);
    assert("output"@.len() == 6);
    assert("usage"@.len() == 5);
    assert("type"@[0] == 't' && "role"@[0] == 'r');
    assert("type"@[1] == 'y' && "text"@[1] == 'e');
    assert("type"@[0] == 't' && "name"@[0] == 'n');
    assert("role"@[0] == 'r' && "text"@[0] == 't');
    assert("role"@[0] == 'r' && "name"@[0] == 'n');
    assert("status"@[0] == 's' && "object"@[0] == 'o');
    assert("status"@[0] == 's' && "output"@[0] == 'o');
    assert("content"@[1] == 'o' && "call_id"@[1] == 'a');
    assert("text"@[0] == 't' && "name"@[0] == 'n');
    assert("object"@[1] == 'b' && "output"@[1] == 'u');
    assert("model"@[0] == 'm' && "usage"@[0] == 'u');
}

proof fn lemma_short_id(prefix: Seq<char>, n: u64)
    ensures
        is_short_id(Some(crate::server::answer::short_id(prefix, n)), prefix),
{
    id_chars_are_spelled(n, 16);
    let s = crate::server::answer::short_id(prefix, n);
    assert(s.subrange(0, prefix.len() as int) =~= prefix);
    assert forall|i: int| prefix.len() <= i < s.len() implies alphabet().contains(
        #[trigger] s[i],
    ) by {
        assert(s[i] == crate::ids::id_chars(n, 16)[i - prefix.len()]);
    }
}

proof fn lemma_message_item(id: Seq<char>, text: Seq<char>)
    requires
        is_short_id(Some(id), "msg_"@),
    ensures
        is_message_with(crate::translate::stream_model::message_done_item(id, text), text),
{
    lemma_body_names_differ();
    let item = crate::translate::stream_model::message_done_item(id, text);
    assert(item->Object_0.dom() =~= set!["type"@, "id"@, "role"@, "status"@, "content"@]);
    let part = array_at(item, "content"@)->0[0];
    assert(part->Object_0.dom() =~= set!["type"@, "text"@]);
}

proof fn lemma_call_item(id: Seq<char>, c: CallModel)
    requires
        is_short_id(Some(id), "fc_"@),
    ensures
        is_call_with(
            crate::translate::stream_model::call_item(
                id,
                c.call_id,
                c.name,
                c.arguments,
                "completed"@,
            ),
            c,
        ),
{
    lemma_body_names_differ();
    let item = crate::translate::stream_model::call_item(
        id,
        c.call_id,
        c.name,
        c.arguments,
        "completed"@,
    );
    assert(item->Object_0.dom() =~= set![
        "type"@,
        "id"@,
        "call_id"@,
        "name"@,
        "arguments"@,
        "status"@,
    ]);
}

proof fn lemma_output_items(a: AnswerModel, seeds: Seq<u64>)
    requires
        a.calls.dom().finite(),
    ensures
        are_items_of(output_items(a, seeds), a),
{
    let indices = in_order(a.calls.dom());
    in_order_is_ascending(a.calls.dom());
    let items = output_items(a, seeds);
    let first: int = if a.content.len() > 0 {
        1
    } else {
        0
    };
    if a.content.len() > 0 {
        lemma_short_id("msg_"@, seeds[0]);
        lemma_message_item(crate::server::answer::short_id("msg_"@, seeds[0]), a.content);
    }
    assert forall|k: int| 0 <= k < indices.len() implies is_call_with(
        items[first + k],
        a.calls[#[trigger] indices[k]],
    ) by {
        let seed = if a.content.len() > 0 {
            seeds.skip(1)[k]
        } else {
            seeds[k]
        };
        lemma_short_id("fc_"@, seed);
        lemma_call_item(crate::server::answer::short_id("fc_"@, seed), a.calls[indices[k]]);
    }
}

/// What a response that is not streamed says of the text that the upstream
/// answered with: it is complete and carries the model name; its items are the
/// content of all payloads, put together, as one message, unless it is empty, and
/// the tool calls, each with all its pieces, from the smallest index up; and it
/// carries the last token count that came, or null.
pub proof fn a_response_says_what_came(
    text: Seq<char>,
    model: Seq<char>,
    seeds: Seq<u64>,
    secs: u64,
)
    ensures
        ({
            let a = answer_in(text);
            let body = answer_body(a, model, seeds, secs);
            &&& holds_all(a, text_events(text))
            &&& has_only(
                body,
                set![
                    "id"@,
                    "object"@,
                    "created_at"@,
                    "status"@,
                    "model"@,
                    "output"@,
                    "usage"@,
                ],
            )
            &&& is_short_id(str_at(body, "id"@), "resp_"@)
            &&& str_at(body, "object"@) == Some("response"@)
            &&& at(body, "created_at"@) == Some(Json::Unsigned(secs))
            &&& str_at(body, "status"@) == Some("completed"@)
            &&& str_at(body, "model"@) == Some(model)
            &&& array_at(body, "output"@) is Some
            &&& are_items_of(array_at(body, "output"@)->0, a)
            &&& at(body, "usage"@) == Some(
                if a.usage is Some {
                    a.usage->0
                } else {
                    Json::Null
                },
            )
        }),
{
    lemma_body_names_differ();
    an_answer_holds_what_came(text_events(text));
    let a = answer_in(text);
    let body = answer_body(a, model, seeds, secs);
    lemma_short_id("resp_"@, seeds[0]);
    lemma_output_items(a, seeds.skip(1));
    assert(body->Object_0.dom() =~= set![
        "id"@,
        "object"@,
        "created_at"@,
        "status"@,
        "model"@,
        "output"@,
        "usage"@,
    ]);
}

/// What a whole text says: what its lines say, in their order, up to the end of
/// the stream. The lines are what lies between its line feeds; the last counts
/// though no line feed ends it.
pub proof fn a_text_says_what_its_lines_say(text: Seq<char>)
    ensures
        exists|ls: Seq<Seq<char>>|
            {
                &&& #[trigger] on_lines(ls) == text
                &&& ls.len() > 0
                &&& forall|i: int| 0 <= i < ls.len() ==> !(#[trigger] ls[i]).contains('\n')
                &&& text_events(text) == up_to_done(
                    ls.filter_map(|l: Seq<char>| line_event(l)),
                )
            },
{
    let complete = lines(text).complete;
    let rest = lines(text).rest;
    let ls = complete.push(rest);
    lines_are_the_text(text);
    lemma_lines_joined(complete, rest);
    lines_say_what_each_says(ls);
    assert forall|i: int| 0 <= i < ls.len() implies !(#[trigger] ls[i]).contains('\n') by {
        if i < complete.len() {
            assert(ls[i] == complete[i]);
        }
    }
    assert(on_lines(ls) == text);
}

proof fn lemma_lines_joined(complete: Seq<Seq<char>>, rest: Seq<char>)
    ensures
        on_lines(complete.push(rest)) == with_line_feeds(complete) + rest,
    decreases complete.len(),
{
    lemma_on_lines_push(complete, rest);
    if complete.len() == 0 {
        assert(with_line_feeds(complete) + rest =~= rest);
    } else {
        let first = complete.drop_last();
        lemma_lines_joined(first, complete.last());
        assert(first.push(complete.last()) =~= complete);
        assert(on_lines(complete) + seq!['\n'] + rest =~= with_line_feeds(complete) + rest);
    }
}

} // verus!
