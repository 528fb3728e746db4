//! What holds of the tool calls of an answer, by the indices that the upstream
//! gave them.

use crate::json::Json;
use crate::json_laws::has_only;
use crate::json_laws::str_at;
use crate::text::string_view;
use crate::translate::call_laws::announced_among;
use crate::translate::call_laws::completes_call;
use crate::translate::call_laws::completion_of;
use crate::translate::call_laws::in_order_is_ascending;
use crate::translate::call_laws::lemma_completed_in_order;
use crate::translate::chat::ChatChunk;
use crate::translate::chat::ChatToolCall;
use crate::translate::events::EventModel;
use crate::translate::stream_laws::item_is;
use crate::translate::stream_laws::lemma_item_kinds;
use crate::translate::stream_laws::run;
use crate::translate::stream_model::add_arguments;
use crate::translate::stream_model::announce_call;
use crate::translate::stream_model::ascending;
use crate::translate::stream_model::at_count;
use crate::translate::stream_model::call_arguments;
use crate::translate::stream_model::call_item;
use crate::translate::stream_model::call_name;
use crate::translate::stream_model::close_call;
use crate::translate::stream_model::close_calls;
use crate::translate::stream_model::close_message;
use crate::translate::stream_model::close_reasoning;
use crate::translate::stream_model::followed_by;
use crate::translate::stream_model::in_order;
use crate::translate::stream_model::initial;
use crate::translate::stream_model::label_call;
use crate::translate::stream_model::no_step;
use crate::translate::stream_model::on_chunk;
use crate::translate::stream_model::on_chunk_at;
use crate::translate::stream_model::on_completed;
use crate::translate::stream_model::on_created;
use crate::translate::stream_model::on_finish;
use crate::translate::stream_model::on_reasoning;
use crate::translate::stream_model::on_text;
use crate::translate::stream_model::on_tool_call;
use crate::translate::stream_model::on_tool_calls;
use crate::translate::stream_model::open_call;
use crate::translate::stream_model::with_usage;
use crate::translate::stream_model::Reading;
use crate::translate::stream_model::Step;
use crate::translate::stream_model::StreamModel;
use vstd::prelude::*;

verus! {

// ---------------------------------------------------------------------------
// What the upstream says of its tool calls

/// The pieces of tool calls that a chunk brings.
pub open spec fn pieces_of(chunk: ChatChunk) -> Seq<ChatToolCall> {
    if chunk.choices@.len() > 0 {
        match chunk.choices@[0].delta.tool_calls {
            Some(calls) => calls@,
            None => Seq::empty(),
        }
    } else {
        Seq::empty()
    }
}

/// The pieces of tool calls that chunks bring, one after another.
pub open spec fn pieces_of_all(chunks: Seq<ChatChunk>) -> Seq<ChatToolCall>
    decreases chunks.len(),
{
    if chunks.len() == 0 {
        Seq::empty()
    } else {
        pieces_of_all(chunks.drop_last()) + pieces_of(chunks.last())
    }
}

/// Whether a chunk ends the answer.
pub open spec fn finishes(chunk: ChatChunk) -> bool {
    chunk.choices@.len() > 0 && chunk.choices@[0].finish_reason is Some
}

/// Whether no chunk but the last ends the answer.
pub open spec fn only_the_last_may_finish(chunks: Seq<ChatChunk>) -> bool {
    forall|i: int| 0 <= i < chunks.len() - 1 ==> !finishes(#[trigger] chunks[i])
}

/// The indices of pieces, each where it occurs first.
pub open spec fn order_of(pieces: Seq<ChatToolCall>) -> Seq<u32>
    decreases pieces.len(),
{
    if pieces.len() == 0 {
        Seq::empty()
    } else {
        let before = order_of(pieces.drop_last());
        if before.contains(pieces.last().index) {
            before
        } else {
            before.push(pieces.last().index)
        }
    }
}

/// The arguments that a piece brings; none where it brings none.
pub open spec fn piece_arguments(tc: ChatToolCall) -> Seq<char> {
    match tc.function {
        Some(f) => match f.arguments {
            Some(a) => a@,
            None => Seq::empty(),
        },
        None => Seq::empty(),
    }
}

/// The name that a piece brings; none where it brings none.
pub open spec fn piece_name(tc: ChatToolCall) -> Seq<char> {
    match tc.function {
        Some(f) => match f.name {
            Some(n) => n@,
            None => Seq::empty(),
        },
        None => Seq::empty(),
    }
}

/// The arguments in the pieces for the index `i`, put together.
pub open spec fn arguments_for(pieces: Seq<ChatToolCall>, i: u32) -> Seq<char>
    decreases pieces.len(),
{
    if pieces.len() == 0 {
        Seq::empty()
    } else {
        let before = arguments_for(pieces.drop_last(), i);
        if pieces.last().index == i {
            before + piece_arguments(pieces.last())
        } else {
            before
        }
    }
}

/// The first name in the pieces for the index `i` that is not empty; empty where
/// there is none.
pub open spec fn name_for(pieces: Seq<ChatToolCall>, i: u32) -> Seq<char>
    decreases pieces.len(),
{
    if pieces.len() == 0 {
        Seq::empty()
    } else {
        let before = name_for(pieces.drop_last(), i);
        if before.len() == 0 && pieces.last().index == i {
            piece_name(pieces.last())
        } else {
            before
        }
    }
}

/// The last id in the pieces for the index `i` that is not empty.
pub open spec fn id_for(pieces: Seq<ChatToolCall>, i: u32) -> Option<Seq<char>>
    decreases pieces.len(),
{
    if pieces.len() == 0 {
        None
    } else {
        let last = pieces.last();
        if last.index == i && last.id is Some && last.id->0@.len() > 0 {
            Some(last.id->0@)
        } else {
            id_for(pieces.drop_last(), i)
        }
    }
}

/// Whether `k` is the place of `i` in `order`, counted from 1.
pub open spec fn is_place_of(order: Seq<u32>, i: u32, k: u32) -> bool {
    1 <= k <= order.len() && order[k - 1] == i
}

/// Whether the open calls of a state are those that pieces describe: each holds
/// what its own pieces say, and they have taken output indices one after another
/// as the pieces first name them, the first one `start`. The largest index is
/// followed by 0.
#[verifier::opaque]
pub open spec fn holds_calls(m: StreamModel, start: u32, pieces: Seq<ChatToolCall>) -> bool {
    let order = order_of(pieces);
    &&& m.next_tool_output_index == (start + order.len()) % 0x1_0000_0000
    &&& m.tool_calls.dom().finite()
    &&& forall|i: u32| #[trigger] m.tool_calls.contains_key(i) <==> order.contains(i)
    &&& forall|j: int|
        0 <= j < order.len() ==> m.tool_calls[#[trigger] order[j]].output_index == (start + j)
            % 0x1_0000_0000
    &&& forall|i: u32| #[trigger]
        m.tool_calls.contains_key(i) ==> {
            &&& m.tool_calls[i].arguments == arguments_for(pieces, i)
            &&& m.tool_calls[i].name == name_for(pieces, i)
            &&& m.tool_calls[i].added == (name_for(pieces, i).len() > 0)
            &&& id_for(pieces, i) is Some ==> m.tool_calls[i].call_id == id_for(pieces, i)->0
        }
}

proof fn lemma_order_grows(pieces: Seq<ChatToolCall>, tc: ChatToolCall)
    ensures
        ({
            let before = order_of(pieces);
            let after = order_of(pieces.push(tc));
            &&& before.is_prefix_of(after)
            &&& after == if before.contains(tc.index) {
                before
            } else {
                before.push(tc.index)
            }
        }),
{
    assert(pieces.push(tc).drop_last() =~= pieces);
    let before = order_of(pieces);
    assert(before.subrange(0, before.len() as int) =~= before);
    assert(before.push(tc.index).subrange(0, before.len() as int) =~= before);
}

proof fn lemma_order_of_concat(a: Seq<ChatToolCall>, b: Seq<ChatToolCall>)
    ensures
        order_of(a).is_prefix_of(order_of(a + b)),
        order_of(a).len() <= order_of(a + b).len(),
    decreases b.len(),
{
    if b.len() == 0 {
        assert(a + b =~= a);
        assert(order_of(a).subrange(0, order_of(a).len() as int) =~= order_of(a));
    } else {
        let shorter = a + b.drop_last();
        lemma_order_of_concat(a, b.drop_last());
        lemma_order_grows(shorter, b.last());
        assert(shorter.push(b.last()) =~= a + b);
        let x = order_of(a);
        let y = order_of(shorter);
        let z = order_of(a + b);
        assert(z.subrange(0, x.len() as int) =~= x) by {
            assert forall|i: int| 0 <= i < x.len() implies z[i] == x[i] by {
                assert(y.subrange(0, x.len() as int)[i] == y[i]);
                assert(z.subrange(0, y.len() as int)[i] == z[i]);
            }
        }
    }
}

proof fn lemma_pieces_without(pieces: Seq<ChatToolCall>, i: u32)
    requires
        !order_of(pieces).contains(i),
    ensures
        arguments_for(pieces, i) == Seq::<char>::empty(),
        name_for(pieces, i) == Seq::<char>::empty(),
        id_for(pieces, i) is None,
    decreases pieces.len(),
{
    if pieces.len() > 0 {
        let before = pieces.drop_last();
        assert(before.push(pieces.last()) =~= pieces);
        lemma_order_grows(before, pieces.last());
        let was = order_of(before);
        let now = order_of(pieces);
        if was.contains(i) {
            let j = choose|j: int| 0 <= j < was.len() && was[j] == i;
            assert(now[j] == i);
        }
        if pieces.last().index == i {
            assert(now[now.len() - 1] == i);
        }
        lemma_pieces_without(before, i);
    }
}

/// No index occurs twice among the indices of pieces, so there are no more of them
/// than there are indices.
pub proof fn lemma_order_is_unique(pieces: Seq<ChatToolCall>)
    ensures
        order_of(pieces).no_duplicates(),
        order_of(pieces).len() <= 0x1_0000_0000,
    decreases pieces.len(),
{
    let order = order_of(pieces);
    if pieces.len() > 0 {
        let before = order_of(pieces.drop_last());
        let i = pieces.last().index;
        lemma_order_is_unique(pieces.drop_last());
        if !before.contains(i) {
            assert forall|p: int, q: int|
                0 <= p < order.len() && 0 <= q < order.len() && p != q implies order[p]
                != order[q] by {
                if p < before.len() {
                    assert(before.contains(before[p]));
                }
                if q < before.len() {
                    assert(before.contains(before[q]));
                }
            }
        }
    }
    let numbers = order.map_values(|i: u32| i as int);
    numbers.unique_seq_to_set();
    vstd::set_lib::lemma_int_range(0, 0x1_0000_0000);
    let range = vstd::set_lib::set_int_range(0, 0x1_0000_0000);
    assert(numbers.to_set().subset_of(range));
    vstd::set_lib::lemma_len_subset(numbers.to_set(), range);
}

/// Calls that are open at the same time have different output indices.
pub proof fn lemma_places_differ(
    m: StreamModel,
    start: u32,
    pieces: Seq<ChatToolCall>,
    a: u32,
    b: u32,
)
    requires
        holds_calls(m, start, pieces),
        m.tool_calls.contains_key(a),
        m.tool_calls.contains_key(b),
        a != b,
    ensures
        m.tool_calls[a].output_index != m.tool_calls[b].output_index,
{
    reveal(holds_calls);
    let order = order_of(pieces);
    lemma_order_is_unique(pieces);
    let j = choose|j: int| 0 <= j < order.len() && order[j] == a;
    let k = choose|k: int| 0 <= k < order.len() && order[k] == b;
    assert(m.tool_calls[order[j]].output_index == (start + j) % 0x1_0000_0000);
    assert(m.tool_calls[order[k]].output_index == (start + k) % 0x1_0000_0000);
}

/// What a piece of a call does to the calls that pieces describe.
proof fn lemma_holds_call(
    m: StreamModel,
    start: u32,
    pieces: Seq<ChatToolCall>,
    tc: ChatToolCall,
    now: u64,
)
    requires
        holds_calls(m, start, pieces),
    ensures
        holds_calls(on_tool_call(m, tc, now).state, start, pieces.push(tc)),
{
    reveal(holds_calls);
    let more = pieces.push(tc);
    assert(more.drop_last() =~= pieces);
    lemma_order_grows(pieces, tc);
    let before = order_of(pieces);
    let after = order_of(more);
    let opened = open_call(m, tc, now);
    let s = on_tool_call(m, tc, now).state;
    let i = tc.index;
    assert(s.tool_calls.dom() =~= m.tool_calls.dom().insert(i));
    assert(s.tool_calls[i].output_index == opened.tool_calls[i].output_index);
    if before.contains(i) {
        assert(m.tool_calls.contains_key(i));
    } else {
        assert(!m.tool_calls.contains_key(i));
        lemma_pieces_without(pieces, i);
        assert(after[before.len() as int] == i);
    }
    assert forall|j: u32| #[trigger] s.tool_calls.contains_key(j) <==> after.contains(j) by {
        if j == i {
            if !before.contains(i) {
                assert(after[before.len() as int] == i);
            }
        } else {
            assert(s.tool_calls.contains_key(j) == m.tool_calls.contains_key(j));
            if before.contains(j) {
                let p = choose|p: int| 0 <= p < before.len() && before[p] == j;
                assert(after[p] == j);
            }
            if after.contains(j) {
                let p = choose|p: int| 0 <= p < after.len() && after[p] == j;
                assert(before[p] == j);
            }
        }
    }
    assert forall|j: int| 0 <= j < after.len() implies s.tool_calls[
        #[trigger] after[j]
    ].output_index == (start + j) % 0x1_0000_0000 by {
        if j < before.len() {
            assert(after[j] == before[j]);
            assert(before.contains(before[j]));
            assert(m.tool_calls.contains_key(before[j]));
            assert(m.tool_calls[before[j]].output_index == (start + j) % 0x1_0000_0000);
            if before[j] != i {
                assert(s.tool_calls[before[j]] == m.tool_calls[before[j]]);
            }
        }
    }
    assert forall|j: u32| #[trigger] s.tool_calls.contains_key(j) implies {
        &&& s.tool_calls[j].arguments == arguments_for(more, j)
        &&& s.tool_calls[j].name == name_for(more, j)
        &&& s.tool_calls[j].added == (name_for(more, j).len() > 0)
        &&& id_for(more, j) is Some ==> s.tool_calls[j].call_id == id_for(more, j)->0
    } by {
        if j == i {
            let t = opened.tool_calls[i];
            assert(t.arguments == arguments_for(pieces, i));
            assert(t.name == name_for(pieces, i));
            if call_arguments(tc) is None || call_arguments(tc)->0.len() == 0 {
                assert(t.arguments + piece_arguments(tc) =~= t.arguments);
            }
            if call_name(tc) is None {
                assert(t.name.len() == 0 ==> t.name =~= piece_name(tc));
            }
        } else {
            assert(m.tool_calls.contains_key(j));
            assert(s.tool_calls[j] == m.tool_calls[j]);
        }
    }
}

/// What pieces of calls do to the calls that earlier pieces describe.
proof fn lemma_holds_calls(
    m: StreamModel,
    start: u32,
    pieces: Seq<ChatToolCall>,
    calls: Seq<ChatToolCall>,
    now: u64,
)
    requires
        holds_calls(m, start, pieces),
    ensures
        holds_calls(on_tool_calls(m, calls, now).state, start, pieces + calls),
    decreases calls.len(),
{
    if calls.len() == 0 {
        assert(pieces + calls =~= pieces);
    } else {
        let first = calls.drop_last();
        assert((pieces + first).push(calls.last()) =~= pieces + calls);
        lemma_holds_calls(m, start, pieces, first, now);
        lemma_holds_call(
            on_tool_calls(m, first, now).state,
            start,
            pieces + first,
            calls.last(),
            now,
        );
    }
}

/// What a chunk does, before it ends the answer, to the calls that pieces
/// describe.
pub proof fn lemma_holds_before_finish(
    m: StreamModel,
    start: u32,
    pieces: Seq<ChatToolCall>,
    chunk: ChatChunk,
    now: u64,
)
    requires
        holds_calls(m, start, pieces),
    ensures
        holds_calls(texts_of(m, chunk, now).state, start, pieces),
        holds_calls(before_finish(m, chunk, now).state, start, pieces + pieces_of(chunk)),
{
    let d = texts_of(m, chunk, now);
    assert(holds_calls(d.state, start, pieces)) by {
        reveal(holds_calls);
        assert(d.state.tool_calls == m.tool_calls);
        assert(d.state.next_tool_output_index == m.next_tool_output_index);
    }
    lemma_holds_calls(d.state, start, pieces, pieces_of(chunk), now);
}

/// Where no call is open, none has been described.
pub proof fn lemma_holds_none(m: StreamModel)
    requires
        m.tool_calls.dom() == Set::<u32>::empty(),
    ensures
        holds_calls(m, m.next_tool_output_index, Seq::empty()),
{
    reveal(holds_calls);
    assert forall|i: u32| !(#[trigger] m.tool_calls.contains_key(i)) by {
        assert(!m.tool_calls.dom().contains(i));
    }
}

/// While chunks do not end the answer, the open calls are those that their pieces
/// describe.
pub proof fn lemma_holds_run(
    m: StreamModel,
    start: u32,
    chunks: Seq<ChatChunk>,
    readings: Seq<Reading>,
)
    requires
        holds_calls(m, start, Seq::empty()),
        forall|i: int| 0 <= i < chunks.len() ==> !finishes(#[trigger] chunks[i]),
    ensures
        holds_calls(run(m, chunks, readings).state, start, pieces_of_all(chunks)),
    decreases chunks.len(),
{
    if chunks.len() > 0 {
        let first = chunks.drop_last();
        assert forall|i: int| 0 <= i < first.len() implies !finishes(#[trigger] first[i]) by {
            assert(first[i] == chunks[i]);
        }
        lemma_holds_run(m, start, first, readings);
        let before = run(m, first, readings);
        let r = readings[chunks.len() - 1];
        let at = at_count(before.state, r.count);
        let p = pieces_of_all(first);
        lemma_holds_at_count(before.state, start, p, r.count);
        assert(!finishes(chunks[chunks.len() - 1]));
        lemma_holds_before_finish(at, start, p, chunks.last(), r.now);
        lemma_chunk_parts(at, chunks.last(), r.now);
    }
}

/// How many identifiers have been made does not matter to the open calls.
pub proof fn lemma_holds_at_count(
    m: StreamModel,
    start: u32,
    pieces: Seq<ChatToolCall>,
    count: u64,
)
    requires
        holds_calls(m, start, pieces),
    ensures
        holds_calls(at_count(m, count), start, pieces),
{
    reveal(holds_calls);
}

// ---------------------------------------------------------------------------
// Which events belong to which tool call

/// No call for each of `n` events.
pub open spec fn no_calls(n: nat) -> Seq<Option<u32>> {
    Seq::new(n, |i: int| None)
}

/// The index of the call that each event of pieces belongs to.
pub open spec fn owners_in_calls(m: StreamModel, calls: Seq<ChatToolCall>, now: u64) -> Seq<
    Option<u32>,
>
    decreases calls.len(),
{
    if calls.len() == 0 {
        Seq::empty()
    } else {
        let before = on_tool_calls(m, calls.drop_last(), now);
        let tc = calls.last();
        owners_in_calls(m, calls.drop_last(), now) + Seq::new(
            on_tool_call(before.state, tc, now).events.len(),
            |i: int| Some(tc.index),
        )
    }
}

/// The index of the call that each event of closing calls belongs to.
pub open spec fn owners_in_closing(m: StreamModel, indices: Seq<u32>) -> Seq<Option<u32>>
    decreases indices.len(),
{
    if indices.len() == 0 {
        Seq::empty()
    } else {
        let before = close_calls(m, indices.drop_last());
        owners_in_closing(m, indices.drop_last()) + Seq::new(
            close_call(before.state, indices.last()).events.len(),
            |i: int| Some(indices.last()),
        )
    }
}

/// What a chunk does before its tool calls.
pub open spec fn texts_of(m: StreamModel, chunk: ChatChunk, now: u64) -> Step {
    let a = on_created(m);
    let b = Step { state: with_usage(a.state, chunk.usage), ..a };
    if chunk.choices@.len() == 0 {
        b
    } else {
        let delta = chunk.choices@[0].delta;
        let c = followed_by(b, on_reasoning(b.state, string_view(delta.reasoning_content), now));
        followed_by(c, on_text(c.state, string_view(delta.content), now))
    }
}

/// What a chunk does before it ends the answer.
pub open spec fn before_finish(m: StreamModel, chunk: ChatChunk, now: u64) -> Step {
    let d = texts_of(m, chunk, now);
    followed_by(d, on_tool_calls(d.state, pieces_of(chunk), now))
}

/// The end of the texts that are open.
pub open spec fn close_texts(m: StreamModel) -> Step {
    let a = close_reasoning(m);
    followed_by(a, close_message(a.state))
}

/// The end of the calls that are open.
pub open spec fn close_all_calls(m: StreamModel) -> Step {
    close_calls(m, in_order(m.tool_calls.dom()))
}

/// The index of the call that each event of the end of an answer belongs to.
pub open spec fn owners_in_finish(m: StreamModel) -> Seq<Option<u32>> {
    let b = close_texts(m);
    let c = close_all_calls(b.state);
    no_calls(b.events.len()) + owners_in_closing(b.state, in_order(b.state.tool_calls.dom()))
        + no_calls(on_completed(c.state).events.len())
}

/// The index of the call that each event of a chunk belongs to; `None` for an
/// event that belongs to no call.
pub open spec fn owners_in_chunk(m: StreamModel, chunk: ChatChunk, now: u64) -> Seq<Option<u32>> {
    let d = texts_of(m, chunk, now);
    let e = before_finish(m, chunk, now);
    let so_far = no_calls(d.events.len()) + owners_in_calls(d.state, pieces_of(chunk), now);
    if finishes(chunk) {
        so_far + owners_in_finish(e.state)
    } else {
        so_far
    }
}

/// The index of the call that each event of a run belongs to.
pub open spec fn owners_in_run(m: StreamModel, chunks: Seq<ChatChunk>, readings: Seq<Reading>) -> Seq<
    Option<u32>,
>
    decreases chunks.len(),
{
    if chunks.len() == 0 {
        Seq::empty()
    } else {
        let before = run(m, chunks.drop_last(), readings);
        let r = readings[chunks.len() - 1];
        owners_in_run(m, chunks.drop_last(), readings) + owners_in_chunk(
            at_count(before.state, r.count),
            chunks.last(),
            r.now,
        )
    }
}

/// Whether an event is about a tool call.
pub open spec fn is_about_call(e: EventModel) -> bool {
    match e {
        EventModel::OutputItemAdded { item, .. } => item_is(item, "function_call"@),
        EventModel::FunctionCallArgumentsDelta { .. } => true,
        EventModel::OutputItemDone { item, .. } => item_is(item, "function_call"@),
        _ => false,
    }
}

/// The output index of an event, where it has one.
pub open spec fn output_index_of(e: EventModel) -> Option<u32> {
    match e {
        EventModel::OutputItemAdded { output_index, .. } => Some(output_index),
        EventModel::OutputTextDelta { output_index, .. } => Some(output_index),
        EventModel::ReasoningTextDelta { output_index, .. } => Some(output_index),
        EventModel::FunctionCallArgumentsDelta { output_index, .. } => Some(output_index),
        EventModel::OutputItemDone { output_index, .. } => Some(output_index),
        _ => None,
    }
}

/// Whether an event has the output index that it should have: one that belongs to
/// a call has the place of the call in `order`, counted from 1; one of a message
/// or a reasoning has 0.
pub open spec fn well_placed(e: EventModel, owner: Option<u32>, order: Seq<u32>) -> bool {
    match owner {
        Some(i) => is_about_call(e) && output_index_of(e) is Some && is_place_of(
            order,
            i,
            output_index_of(e)->0,
        ),
        None => !is_about_call(e) && (output_index_of(e) is Some ==> output_index_of(e)->0 == 0),
    }
}

/// Whether all events have the output index that they should have.
pub open spec fn all_well_placed(
    events: Seq<EventModel>,
    owners: Seq<Option<u32>>,
    order: Seq<u32>,
) -> bool {
    &&& events.len() == owners.len()
    &&& forall|n: int|
        0 <= n < events.len() ==> well_placed(#[trigger] events[n], owners[n], order)
}

proof fn lemma_placed_concat(
    a: Seq<EventModel>,
    oa: Seq<Option<u32>>,
    b: Seq<EventModel>,
    ob: Seq<Option<u32>>,
    order: Seq<u32>,
)
    requires
        all_well_placed(a, oa, order),
        all_well_placed(b, ob, order),
    ensures
        all_well_placed(a + b, oa + ob, order),
{
    let all = a + b;
    let owners = oa + ob;
    assert forall|n: int| 0 <= n < all.len() implies well_placed(
        #[trigger] all[n],
        owners[n],
        order,
    ) by {
        if n < a.len() {
            assert(all[n] == a[n] && owners[n] == oa[n]);
        } else {
            assert(all[n] == b[n - a.len()] && owners[n] == ob[n - a.len()]);
        }
    }
}

proof fn lemma_placed_extends(
    events: Seq<EventModel>,
    owners: Seq<Option<u32>>,
    order: Seq<u32>,
    longer: Seq<u32>,
)
    requires
        all_well_placed(events, owners, order),
        order.is_prefix_of(longer),
    ensures
        all_well_placed(events, owners, longer),
{
    assert forall|n: int| 0 <= n < events.len() implies well_placed(
        #[trigger] events[n],
        owners[n],
        longer,
    ) by {
        assert(well_placed(events[n], owners[n], order));
        if owners[n] is Some {
            let k = output_index_of(events[n])->0;
            assert(longer.subrange(0, order.len() as int)[k - 1] == longer[k - 1]);
        }
    }
}

/// Whether no event is about a tool call, and all have the output index 0.
pub open spec fn are_of_texts(events: Seq<EventModel>) -> bool {
    forall|n: int| 0 <= n < events.len() ==> well_placed(#[trigger] events[n], None, Seq::empty())
}

proof fn lemma_texts_placed(events: Seq<EventModel>, order: Seq<u32>)
    requires
        are_of_texts(events),
    ensures
        all_well_placed(events, no_calls(events.len()), order),
{
    assert forall|n: int| 0 <= n < events.len() implies well_placed(
        #[trigger] events[n],
        no_calls(events.len())[n],
        order,
    ) by {
        assert(well_placed(events[n], None, Seq::empty()));
    }
}

proof fn lemma_texts_of(m: StreamModel, chunk: ChatChunk, now: u64)
    requires
        m.message_output_index == 0,
        m.reasoning_output_index == 0,
    ensures
        are_of_texts(texts_of(m, chunk, now).events),
        texts_of(m, chunk, now).state.tool_calls == m.tool_calls,
        texts_of(m, chunk, now).state.next_tool_output_index == m.next_tool_output_index,
        texts_of(m, chunk, now).state.message_output_index == 0,
        texts_of(m, chunk, now).state.reasoning_output_index == 0,
{
    lemma_item_kinds();
    let a = on_created(m);
    let b = Step { state: with_usage(a.state, chunk.usage), ..a };
    assert(are_of_texts(b.events));
    if chunk.choices@.len() > 0 {
        let delta = chunk.choices@[0].delta;
        let rs = on_reasoning(b.state, string_view(delta.reasoning_content), now);
        assert(are_of_texts(rs.events));
        let c = followed_by(b, rs);
        assert(are_of_texts(c.events));
        let tx = on_text(c.state, string_view(delta.content), now);
        assert(are_of_texts(tx.events));
        assert(are_of_texts(followed_by(c, tx).events));
    }
}

/// A chunk in its parts.
pub proof fn lemma_chunk_parts(m: StreamModel, chunk: ChatChunk, now: u64)
    ensures
        ({
            let e = before_finish(m, chunk, now);
            on_chunk(m, chunk, now) == if finishes(chunk) {
                followed_by(e, on_finish(e.state))
            } else {
                e
            }
        }),
        forall|s: StreamModel|
            {
                let b = close_texts(s);
                let c = close_all_calls(b.state);
                #[trigger] on_finish(s) == followed_by(
                    followed_by(b, c),
                    on_completed(c.state),
                )
            },
{
    let d = texts_of(m, chunk, now);
    assert(d.events + Seq::<EventModel>::empty() =~= d.events);
    assert(followed_by(d, no_step(d.state)).events =~= d.events);
}

/// The place of an open call, where the output indices have not run out.
proof fn lemma_place_of(m: StreamModel, pieces: Seq<ChatToolCall>, i: u32)
    requires
        holds_calls(m, 1, pieces),
        order_of(pieces).len() <= u32::MAX,
        m.tool_calls.contains_key(i),
    ensures
        is_place_of(order_of(pieces), i, m.tool_calls[i].output_index),
{
    reveal(holds_calls);
    let order = order_of(pieces);
    let j = choose|j: int| 0 <= j < order.len() && order[j] == i;
    assert(m.tool_calls[order[j]].output_index == (1 + j) % 0x1_0000_0000);
}

proof fn lemma_placed_calls(
    m: StreamModel,
    pieces: Seq<ChatToolCall>,
    calls: Seq<ChatToolCall>,
    now: u64,
)
    requires
        holds_calls(m, 1, pieces),
        order_of(pieces + calls).len() <= u32::MAX,
    ensures
        all_well_placed(
            on_tool_calls(m, calls, now).events,
            owners_in_calls(m, calls, now),
            order_of(pieces + calls),
        ),
    decreases calls.len(),
{
    if calls.len() > 0 {
        let first = calls.drop_last();
        let tc = calls.last();
        assert((pieces + first).push(tc) =~= pieces + calls);
        lemma_order_grows(pieces + first, tc);
        lemma_placed_calls(m, pieces, first, now);
        lemma_holds_calls(m, 1, pieces, calls, now);
        let before = on_tool_calls(m, first, now);
        let step = on_tool_call(before.state, tc, now);
        let order = order_of(pieces + calls);
        let owners = Seq::new(step.events.len(), |i: int| Some(tc.index));
        assert(step.state.tool_calls.contains_key(tc.index));
        lemma_place_of(step.state, pieces + calls, tc.index);
        lemma_item_kinds();
        let l = label_call(before.state, tc, now);
        let announced = announce_call(l, tc.index);
        let added = add_arguments(announced.state, tc.index, call_arguments(tc));
        assert(l.tool_calls[tc.index].output_index
            == step.state.tool_calls[tc.index].output_index);
        assert forall|n: int| 0 <= n < step.events.len() implies well_placed(
            #[trigger] step.events[n],
            owners[n],
            order,
        ) by {
            if n < announced.events.len() {
                assert(step.events[n] == announced.events[n]);
            } else {
                assert(step.events[n] == added.events[n - announced.events.len()]);
            }
        }
        lemma_placed_extends(
            before.events,
            owners_in_calls(m, first, now),
            order_of(pieces + first),
            order,
        );
        lemma_placed_concat(
            before.events,
            owners_in_calls(m, first, now),
            step.events,
            owners,
            order,
        );
    }
}

/// Whether the message and the reasoning have the output index 0.
pub open spec fn texts_at_zero(m: StreamModel) -> bool {
    m.message_output_index == 0 && m.reasoning_output_index == 0
}

proof fn lemma_calls_keep_texts(m: StreamModel, calls: Seq<ChatToolCall>, now: u64)
    requires
        texts_at_zero(m),
    ensures
        texts_at_zero(on_tool_calls(m, calls, now).state),
    decreases calls.len(),
{
    if calls.len() > 0 {
        lemma_calls_keep_texts(m, calls.drop_last(), now);
    }
}

/// The events that close calls belong to the calls that have been announced.
proof fn lemma_owners_in_closing(m: StreamModel, indices: Seq<u32>)
    requires
        indices.no_duplicates(),
    ensures
        owners_in_closing(m, indices) == announced_among(m, indices).map_values(
            |i: u32| Some(i),
        ),
    decreases indices.len(),
{
    reveal(Seq::filter);
    let some = |i: u32| Some(i);
    if indices.len() == 0 {
        assert(announced_among(m, indices).map_values(some) =~= Seq::<Option<u32>>::empty());
    } else {
        let first = indices.drop_last();
        let x = indices.last();
        lemma_owners_in_closing(m, first);
        lemma_completed_in_order(m, first);
        assert(!first.contains(x));
        let before = close_calls(m, first);
        assert(before.state.tool_calls[x] == m.tool_calls[x]);
        assert(owners_in_closing(m, indices) =~= announced_among(m, indices).map_values(some));
    }
}

proof fn lemma_placed_finish(m: StreamModel, pieces: Seq<ChatToolCall>)
    requires
        holds_calls(m, 1, pieces),
        order_of(pieces).len() <= u32::MAX,
        texts_at_zero(m),
    ensures
        all_well_placed(on_finish(m).events, owners_in_finish(m), order_of(pieces)),
{
    assert(m.tool_calls.dom().finite()) by {
        reveal(holds_calls);
    }
    lemma_item_kinds();
    let order = order_of(pieces);
    let b = close_texts(m);
    let a = close_reasoning(m);
    let cm = close_message(a.state);
    assert(are_of_texts(a.events));
    assert(are_of_texts(cm.events));
    assert(are_of_texts(b.events));
    lemma_texts_placed(b.events, order);
    let indices = in_order(b.state.tool_calls.dom());
    in_order_is_ascending(b.state.tool_calls.dom());
    assert(indices.no_duplicates());
    lemma_completed_in_order(b.state, indices);
    lemma_owners_in_closing(b.state, indices);
    let c = close_all_calls(b.state);
    let named = announced_among(b.state, indices);
    let owners = owners_in_closing(b.state, indices);
    assert forall|n: int| 0 <= n < c.events.len() implies well_placed(
        #[trigger] c.events[n],
        owners[n],
        order,
    ) by {
        let i = named[n];
        assert(owners[n] == Some(i));
        lemma_announced_is_open(b.state, indices, n);
        assert(b.state.tool_calls == m.tool_calls);
        assert(m.tool_calls.contains_key(i));
        lemma_place_of(m, pieces, i);
        assert(c.events[n] == completion_of(b.state.tool_calls[i], c.events[n].number()));
    }
    let done = on_completed(c.state);
    assert(are_of_texts(done.events));
    lemma_texts_placed(done.events, order);
    lemma_placed_concat(b.events, no_calls(b.events.len()), c.events, owners, order);
    lemma_placed_concat(
        b.events + c.events,
        no_calls(b.events.len()) + owners,
        done.events,
        no_calls(done.events.len()),
        order,
    );
}

/// An announced call among indices is one of them.
proof fn lemma_announced_is_open(m: StreamModel, indices: Seq<u32>, n: int)
    requires
        indices.to_set() == m.tool_calls.dom(),
        0 <= n < announced_among(m, indices).len(),
    ensures
        m.tool_calls.contains_key(announced_among(m, indices)[n]),
        m.tool_calls[announced_among(m, indices)[n]].added,
        indices.contains(announced_among(m, indices)[n]),
{
    let keep = |i: u32| m.tool_calls[i].added;
    let i = announced_among(m, indices)[n];
    assert(indices.filter(keep).contains(i));
    indices.lemma_filter_contains_rev(keep, i);
    indices.lemma_filter_pred(keep, n);
    assert(indices.to_set().contains(i));
}

proof fn lemma_placed_chunk(
    m: StreamModel,
    pieces: Seq<ChatToolCall>,
    chunk: ChatChunk,
    now: u64,
)
    requires
        holds_calls(m, 1, pieces),
        texts_at_zero(m),
        order_of(pieces + pieces_of(chunk)).len() <= u32::MAX,
    ensures
        ({
            let s = on_chunk(m, chunk, now);
            &&& !finishes(chunk) ==> texts_at_zero(s.state)
            &&& all_well_placed(
                s.events,
                owners_in_chunk(m, chunk, now),
                order_of(pieces + pieces_of(chunk)),
            )
        }),
{
    let all = pieces + pieces_of(chunk);
    let order = order_of(all);
    let d = texts_of(m, chunk, now);
    lemma_texts_of(m, chunk, now);
    lemma_texts_placed(d.events, order);
    lemma_holds_before_finish(m, 1, pieces, chunk, now);
    lemma_placed_calls(d.state, pieces, pieces_of(chunk), now);
    lemma_calls_keep_texts(d.state, pieces_of(chunk), now);
    let tcs = on_tool_calls(d.state, pieces_of(chunk), now);
    let e = before_finish(m, chunk, now);
    lemma_placed_concat(
        d.events,
        no_calls(d.events.len()),
        tcs.events,
        owners_in_calls(d.state, pieces_of(chunk), now),
        order,
    );
    lemma_chunk_parts(m, chunk, now);
    if finishes(chunk) {
        lemma_placed_finish(e.state, all);
        lemma_placed_concat(
            e.events,
            no_calls(d.events.len()) + owners_in_calls(d.state, pieces_of(chunk), now),
            on_finish(e.state).events,
            owners_in_finish(e.state),
            order,
        );
    }
}

proof fn lemma_placed_run(m: StreamModel, chunks: Seq<ChatChunk>, readings: Seq<Reading>)
    requires
        holds_calls(m, 1, Seq::empty()),
        texts_at_zero(m),
        order_of(pieces_of_all(chunks)).len() <= u32::MAX,
        only_the_last_may_finish(chunks),
    ensures
        ({
            let s = run(m, chunks, readings);
            &&& chunks.len() == 0 || !finishes(chunks.last()) ==> texts_at_zero(s.state)
            &&& all_well_placed(
                s.events,
                owners_in_run(m, chunks, readings),
                order_of(pieces_of_all(chunks)),
            )
        }),
    decreases chunks.len(),
{
    if chunks.len() > 0 {
        let first = chunks.drop_last();
        lemma_none_before_last(chunks);
        assert(only_the_last_may_finish(first));
        let p = pieces_of_all(first);
        let q = pieces_of(chunks.last());
        lemma_order_of_concat(p, q);
        lemma_placed_run(m, first, readings);
        lemma_holds_run(m, 1, first, readings);
        let before = run(m, first, readings);
        let r = readings[chunks.len() - 1];
        let at = at_count(before.state, r.count);
        lemma_holds_at_count(before.state, 1, p, r.count);
        lemma_placed_chunk(at, p, chunks.last(), r.now);
        lemma_placed_extends(
            before.events,
            owners_in_run(m, first, readings),
            order_of(p),
            order_of(p + q),
        );
        lemma_placed_concat(
            before.events,
            owners_in_run(m, first, readings),
            on_chunk(at, chunks.last(), r.now).events,
            owners_in_chunk(at, chunks.last(), r.now),
            order_of(p + q),
        );
    }
}

/// Where only the last chunk may end the answer, none before it does.
pub proof fn lemma_none_before_last(chunks: Seq<ChatChunk>)
    requires
        chunks.len() > 0,
        only_the_last_may_finish(chunks),
    ensures
        forall|i: int|
            0 <= i < chunks.drop_last().len() ==> !finishes(#[trigger] chunks.drop_last()[i]),
{
    let first = chunks.drop_last();
    assert forall|i: int| 0 <= i < first.len() implies !finishes(#[trigger] first[i]) by {
        assert(first[i] == chunks[i]);
    }
}

/// The output indices of an answer: all events of the tool call whose index the
/// upstream used as the k-th have the output index k, and all events of the
/// message and the reasoning have 0. So no two calls share an output index.
pub proof fn calls_are_placed_as_they_appear(
    model: Seq<char>,
    count_before: u64,
    now: u64,
    secs: u64,
    chunks: Seq<ChatChunk>,
    readings: Seq<Reading>,
)
    requires
        only_the_last_may_finish(chunks),
        order_of(pieces_of_all(chunks)).len() <= u32::MAX,
    ensures
        ({
            let m = initial(model, count_before, now, secs);
            all_well_placed(
                run(m, chunks, readings).events,
                owners_in_run(m, chunks, readings),
                order_of(pieces_of_all(chunks)),
            )
        }),
{
    let m = initial(model, count_before, now, secs);
    assert(m.tool_calls.dom() =~= Set::<u32>::empty());
    lemma_holds_none(m);
    lemma_placed_run(m, chunks, readings);
}

// ---------------------------------------------------------------------------
// What a chunk completes

/// Whether no event completes an item.
pub open spec fn completes_nothing(events: Seq<EventModel>) -> bool {
    forall|n: int| 0 <= n < events.len() ==> !(#[trigger] events[n] is OutputItemDone)
}

/// Whether no event adds an item.
pub open spec fn adds_nothing(events: Seq<EventModel>) -> bool {
    forall|n: int| 0 <= n < events.len() ==> !(#[trigger] events[n] is OutputItemAdded)
}

proof fn lemma_calls_complete_nothing(m: StreamModel, calls: Seq<ChatToolCall>, now: u64)
    ensures
        completes_nothing(on_tool_calls(m, calls, now).events),
    decreases calls.len(),
{
    if calls.len() > 0 {
        let before = on_tool_calls(m, calls.drop_last(), now);
        lemma_calls_complete_nothing(m, calls.drop_last(), now);
        let step = on_tool_call(before.state, calls.last(), now);
        assert(completes_nothing(step.events));
    }
}

/// Before a chunk ends the answer, it completes nothing.
pub proof fn lemma_nothing_before_finish(m: StreamModel, chunk: ChatChunk, now: u64)
    ensures
        completes_nothing(before_finish(m, chunk, now).events),
{
    let a = on_created(m);
    let b = Step { state: with_usage(a.state, chunk.usage), ..a };
    assert(completes_nothing(b.events));
    let d = texts_of(m, chunk, now);
    if chunk.choices@.len() > 0 {
        let delta = chunk.choices@[0].delta;
        let rs = on_reasoning(b.state, string_view(delta.reasoning_content), now);
        assert(completes_nothing(rs.events));
        let c = followed_by(b, rs);
        assert(completes_nothing(c.events));
        let tx = on_text(c.state, string_view(delta.content), now);
        assert(completes_nothing(tx.events));
        assert(completes_nothing(d.events));
    }
    lemma_calls_complete_nothing(d.state, pieces_of(chunk), now);
}

/// What is kept of ascending indices is ascending.
proof fn lemma_announced_ascending(m: StreamModel, indices: Seq<u32>)
    requires
        ascending(indices),
    ensures
        ascending(announced_among(m, indices)),
        forall|j: int|
            0 <= j < announced_among(m, indices).len() ==> indices.contains(
                #[trigger] announced_among(m, indices)[j],
            ),
    decreases indices.len(),
{
    reveal(Seq::filter);
    let keep = |i: u32| m.tool_calls[i].added;
    let named = announced_among(m, indices);
    if indices.len() > 0 {
        let first = indices.drop_last();
        let x = indices.last();
        lemma_announced_ascending(m, first);
        let before = announced_among(m, first);
        assert forall|j: int| 0 <= j < named.len() implies indices.contains(
            #[trigger] named[j],
        ) by {
            if j < before.len() {
                assert(first.contains(before[j]));
                let p = choose|p: int| 0 <= p < first.len() && first[p] == before[j];
                assert(indices[p] == named[j]);
            } else {
                assert(indices[indices.len() - 1] == x);
            }
        }
        assert forall|i: int, j: int| 0 <= i < j < named.len() implies named[i] < named[j] by {
            if j == before.len() {
                assert(first.contains(before[i]));
                let p = choose|p: int| 0 <= p < first.len() && first[p] == before[i];
                assert(indices[p] < indices[indices.len() - 1]);
            }
        }
    }
}

/// Whether the event at `n` completes the call with the index `i`.
pub open spec fn completes_for(
    events: Seq<EventModel>,
    owners: Seq<Option<u32>>,
    i: u32,
    n: int,
) -> bool {
    0 <= n < events.len() && owners[n] == Some(i) && completes_call(events[n])
}

/// The item that an event completes.
pub open spec fn completed_item(e: EventModel) -> Option<Json> {
    match e {
        EventModel::OutputItemDone { item, .. } => Some(item),
        _ => None,
    }
}

/// Whether an item is a tool call that is complete, with this name and these
/// arguments.
pub open spec fn is_call_item(item: Json, name: Seq<char>, arguments: Seq<char>) -> bool {
    &&& has_only(
        item,
        set!["type"@, "id"@, "call_id"@, "name"@, "arguments"@, "status"@],
    )
    &&& str_at(item, "type"@) == Some("function_call"@)
    &&& str_at(item, "id"@) is Some
    &&& str_at(item, "call_id"@) is Some
    &&& str_at(item, "name"@) == Some(name)
    &&& str_at(item, "arguments"@) == Some(arguments)
    &&& str_at(item, "status"@) == Some("completed"@)
}

/// Whether exactly one event completes the call with the index `i`: with what
/// pieces say of it, all its arguments, its first name and, where it has got an
/// id, its last id.
pub open spec fn completed_once(
    events: Seq<EventModel>,
    owners: Seq<Option<u32>>,
    i: u32,
    pieces: Seq<ChatToolCall>,
) -> bool {
    exists|n: int|
        {
            &&& #[trigger] completes_for(events, owners, i, n)
            &&& completed_item(events[n]) is Some
            &&& is_call_item(
                completed_item(events[n])->0,
                name_for(pieces, i),
                arguments_for(pieces, i),
            )
            &&& id_for(pieces, i) is Some ==> str_at(
                completed_item(events[n])->0,
                "call_id"@,
            ) == id_for(pieces, i)
            &&& forall|p: int| #[trigger] completes_for(events, owners, i, p) ==> p == n
        }
}

/// The names in the item of a tool call differ.
pub proof fn lemma_call_item_names()
    ensures
        "type"@ != "id"@,
        "type"@ != "call_id"@,
        "type"@ != "name"@,
        "type"@ != "arguments"@,
        "type"@ != "status"@,
        "id"@ != "call_id"@,
        "id"@ != "name"@,
        "id"@ != "arguments"@,
        "id"@ != "status"@,
        "call_id"@ != "name"@,
        "call_id"@ != "arguments"@,
        "call_id"@ != "status"@,
        "name"@ != "arguments"@,
        "name"@ != "status"@,
        "arguments"@ != "status"@,
{
    reveal_strlit("type");
    reveal_strlit("id");
    reveal_strlit("call_id");
    reveal_strlit("name");
    reveal_strlit("arguments");
    reveal_strlit("status");
    assert("type"@.len() == 4);
    assert("id"@.len() == 2);
    assert("call_id"@.len() == 7);
    assert("name"@.len() == 4);
    assert("arguments"@.len() == 9);
    assert("status"@.len() == 6);
    assert("type"@[0] == 't' && "name"@[0] == 'n');
}

/// What is completed once is completed once after events that complete nothing.
proof fn lemma_completed_once_after(
    earlier: Seq<EventModel>,
    earlier_owners: Seq<Option<u32>>,
    events: Seq<EventModel>,
    owners: Seq<Option<u32>>,
    i: u32,
    pieces: Seq<ChatToolCall>,
)
    requires
        earlier.len() == earlier_owners.len(),
        events.len() == owners.len(),
        completes_nothing(earlier),
        completed_once(events, owners, i, pieces),
    ensures
        completed_once(earlier + events, earlier_owners + owners, i, pieces),
{
    let j = choose|j: int|
        {
            &&& #[trigger] completes_for(events, owners, i, j)
            &&& completed_item(events[j]) is Some
            &&& is_call_item(
                completed_item(events[j])->0,
                name_for(pieces, i),
                arguments_for(pieces, i),
            )
            &&& id_for(pieces, i) is Some ==> str_at(
                completed_item(events[j])->0,
                "call_id"@,
            ) == id_for(pieces, i)
            &&& forall|p: int| #[trigger] completes_for(events, owners, i, p) ==> p == j
        };
    let all = earlier + events;
    let all_owners = earlier_owners + owners;
    let k = earlier.len();
    let n = k + j;
    assert(all[n] == events[j]);
    assert(all_owners[n] == owners[j]);
    assert(completes_for(all, all_owners, i, n));
    assert forall|p: int| #[trigger] completes_for(all, all_owners, i, p) implies p == n by {
        if p < k {
            assert(all[p] == earlier[p]);
        } else {
            assert(all[p] == events[p - k]);
            assert(all_owners[p] == owners[p - k]);
            assert(completes_for(events, owners, i, p - k));
        }
    }
    assert(completed_item(all[n]) == completed_item(events[j]));
}

/// A chunk that ends an answer completes each tool call of the upstream that has
/// got a name, once: with the arguments of all its pieces, put together, with its
/// first name and, where it has got an id, with its last id. Pieces of different
/// calls are never mixed, however they are interleaved. An answer starts where no
/// call is open: a new stream, or one whose last chunk has ended an answer.
pub proof fn each_call_is_completed_with_its_pieces(
    m: StreamModel,
    chunks: Seq<ChatChunk>,
    readings: Seq<Reading>,
    i: u32,
)
    requires
        m.tool_calls.dom() == Set::<u32>::empty(),
        chunks.len() > 0,
        finishes(chunks.last()),
        only_the_last_may_finish(chunks),
        name_for(pieces_of_all(chunks), i).len() > 0,
    ensures
        ({
            let before = run(m, chunks.drop_last(), readings);
            let r = readings[chunks.len() - 1];
            completed_once(
                on_chunk_at(before.state, chunks.last(), r).events,
                owners_in_chunk(at_count(before.state, r.count), chunks.last(), r.now),
                i,
                pieces_of_all(chunks),
            )
        }),
{
    let pieces = pieces_of_all(chunks);
    let start = m.next_tool_output_index;
    let first = chunks.drop_last();
    let chunk = chunks.last();
    let before = run(m, first, readings);
    let r = readings[chunks.len() - 1];
    let at = at_count(before.state, r.count);
    let p0 = pieces_of_all(first);
    lemma_none_before_last(chunks);
    lemma_holds_none(m);
    lemma_holds_run(m, start, first, readings);
    lemma_holds_at_count(before.state, start, p0, r.count);
    lemma_holds_before_finish(at, start, p0, chunk, r.now);
    lemma_chunk_parts(at, chunk, r.now);
    lemma_nothing_before_finish(at, chunk, r.now);
    let d = texts_of(at, chunk, r.now);
    lemma_owners_len(d.state, pieces_of(chunk), r.now);
    let e = before_finish(at, chunk, r.now);
    lemma_finish_completes_call(e.state, start, pieces, i);
    lemma_completed_once_after(
        e.events,
        no_calls(d.events.len()) + owners_in_calls(d.state, pieces_of(chunk), r.now),
        on_finish(e.state).events,
        owners_in_finish(e.state),
        i,
        pieces,
    );
}

proof fn lemma_finish_completes_call(
    m: StreamModel,
    start: u32,
    pieces: Seq<ChatToolCall>,
    i: u32,
)
    requires
        holds_calls(m, start, pieces),
        name_for(pieces, i).len() > 0,
    ensures
        on_finish(m).events.len() == owners_in_finish(m).len(),
        completed_once(on_finish(m).events, owners_in_finish(m), i, pieces),
{
    reveal(holds_calls);
    lemma_item_kinds();
    if !order_of(pieces).contains(i) {
        lemma_pieces_without(pieces, i);
    }
    assert(m.tool_calls.contains_key(i));
    let b = close_texts(m);
    assert(b.state.tool_calls == m.tool_calls);
    let indices = in_order(b.state.tool_calls.dom());
    in_order_is_ascending(b.state.tool_calls.dom());
    lemma_completed_in_order(b.state, indices);
    lemma_owners_in_closing(b.state, indices);
    lemma_announced_ascending(b.state, indices);
    let c = close_all_calls(b.state);
    let named = announced_among(b.state, indices);
    let keep = |i: u32| b.state.tool_calls[i].added;
    assert(indices.to_set().contains(i));
    let q = choose|q: int| 0 <= q < indices.len() && indices[q] == i;
    indices.lemma_filter_contains(keep, q);
    assert(named.contains(i));
    let x = choose|x: int| 0 <= x < named.len() && named[x] == i;
    let f = on_finish(m);
    let of = owners_in_finish(m);
    let done = on_completed(c.state);
    let k = b.events.len();
    let j = k + x;
    let t = m.tool_calls[i];
    assert(f.events =~= b.events + c.events + done.events);
    assert(f.events[j] == c.events[x]);
    assert(c.events[x] == completion_of(t, c.events[x].number()));
    let closing = owners_in_closing(b.state, indices);
    assert(of[j] == closing[x]);
    assert(completes_for(f.events, of, i, j));
    assert forall|p: int| #[trigger] completes_for(f.events, of, i, p) implies p == j by {
        if p < k {
            assert(of[p] is None);
        } else if p < k + c.events.len() {
            assert(of[p] == closing[p - k]);
            assert(named[p - k] == i);
            if p - k < x {
                assert(named[p - k] < named[x]);
            } else if p - k > x {
                assert(named[x] < named[p - k]);
            }
        } else {
            assert(of[p] is None);
        }
    }
    let item = call_item(t.item_id, t.call_id, t.name, t.arguments, "completed"@);
    assert(completed_item(f.events[j]) == Some(item));
    lemma_call_item_names();
    assert(item->Object_0.dom() =~= set![
        "type"@,
        "id"@,
        "call_id"@,
        "name"@,
        "arguments"@,
        "status"@,
    ]);
}

/// The place of a completed item in the order of completion: the reasoning, the
/// message, the tool calls.
pub open spec fn rank_of(e: EventModel) -> nat {
    match e {
        EventModel::OutputItemDone { item, .. } => if item_is(item, "reasoning"@) {
            0
        } else if item_is(item, "message"@) {
            1
        } else {
            2
        },
        _ => 0,
    }
}

/// Whether items are completed in order: the reasoning, the message, and the tool
/// calls by ascending indices; and only after the last item that was added.
pub open spec fn completed_in_order(events: Seq<EventModel>, owners: Seq<Option<u32>>) -> bool {
    &&& events.len() == owners.len()
    &&& forall|p: int, n: int|
        (0 <= p < n < events.len() && #[trigger] events[p] is OutputItemDone
            && #[trigger] events[n] is OutputItemDone) ==> {
            ||| rank_of(events[p]) < rank_of(events[n])
            ||| rank_of(events[p]) == 2 && rank_of(events[n]) == 2 && owners[p] is Some
                && owners[n] is Some && owners[p]->0 < owners[n]->0
        }
    &&& forall|p: int, n: int|
        (0 <= p < n < events.len() && #[trigger] events[p] is OutputItemDone) ==> !(
        #[trigger] events[n] is OutputItemAdded)
}

/// The end of an answer completes items in order, and adds none.
pub proof fn lemma_finish_in_order(m: StreamModel)
    requires
        m.tool_calls.dom().finite(),
    ensures
        completed_in_order(on_finish(m).events, owners_in_finish(m)),
        adds_nothing(on_finish(m).events),
{
    lemma_item_kinds();
    let a = close_reasoning(m);
    let cm = close_message(a.state);
    let b = close_texts(m);
    let indices = in_order(b.state.tool_calls.dom());
    in_order_is_ascending(b.state.tool_calls.dom());
    lemma_completed_in_order(b.state, indices);
    lemma_owners_in_closing(b.state, indices);
    lemma_announced_ascending(b.state, indices);
    let c = close_all_calls(b.state);
    let named = announced_among(b.state, indices);
    let closing = owners_in_closing(b.state, indices);
    let done = on_completed(c.state);
    let all = on_finish(m).events;
    let of = owners_in_finish(m);
    let k = b.events.len();
    assert(all =~= b.events + c.events + done.events);
    assert forall|n: int| 0 <= n < b.events.len() implies (#[trigger] b.events[n]) is OutputItemDone
        && (if n < a.events.len() {
        rank_of(b.events[n]) == 0
    } else {
        rank_of(b.events[n]) == 1
    }) by {
        if n < a.events.len() {
            assert(b.events[n] == a.events[n]);
        } else {
            assert(b.events[n] == cm.events[n - a.events.len()]);
        }
    }
    assert forall|n: int| 0 <= n < c.events.len() implies (#[trigger] c.events[n])
        is OutputItemDone && rank_of(c.events[n]) == 2 && closing[n] == Some(named[n]) by {
        assert(c.events[n] == completion_of(
            b.state.tool_calls[named[n]],
            c.events[n].number(),
        ));
    }
    assert forall|n: int| 0 <= n < all.len() implies !(#[trigger] all[n] is OutputItemAdded) by {
        if n < k {
            assert(all[n] == b.events[n]);
        } else if n < k + c.events.len() {
            assert(all[n] == c.events[n - k]);
        } else {
            assert(all[n] == done.events[n - k - c.events.len()]);
        }
    }
    assert forall|p: int, n: int|
        (0 <= p < n < all.len() && #[trigger] all[p] is OutputItemDone && #[trigger] all[n]
            is OutputItemDone) implies {
        ||| rank_of(all[p]) < rank_of(all[n])
        ||| rank_of(all[p]) == 2 && rank_of(all[n]) == 2 && of[p] is Some && of[n] is Some
            && of[p]->0 < of[n]->0
    } by {
        if n < k {
            assert(all[n] == b.events[n]);
            assert(all[p] == b.events[p]);
        } else if n < k + c.events.len() {
            assert(all[n] == c.events[n - k]);
            assert(of[n] == closing[n - k]);
            if p < k {
                assert(all[p] == b.events[p]);
            } else {
                assert(all[p] == c.events[p - k]);
                assert(of[p] == closing[p - k]);
                assert(named[p - k] < named[n - k]);
            }
        } else {
            assert(all[n] == done.events[n - k - c.events.len()]);
        }
    }
}

/// In every chunk, items are completed in order, and only after the last item
/// that the chunk adds; a chunk that does not end the answer completes nothing.
pub proof fn items_are_completed_in_order(m: StreamModel, chunk: ChatChunk, now: u64)
    requires
        m.tool_calls.dom().finite(),
    ensures
        completed_in_order(
            on_chunk(m, chunk, now).events,
            owners_in_chunk(m, chunk, now),
        ),
        !finishes(chunk) ==> completes_nothing(on_chunk(m, chunk, now).events),
{
    lemma_chunk_parts(m, chunk, now);
    lemma_nothing_before_finish(m, chunk, now);
    let d = texts_of(m, chunk, now);
    let e = before_finish(m, chunk, now);
    lemma_owners_len(d.state, pieces_of(chunk), now);
    let all = on_chunk(m, chunk, now).events;
    let owners = owners_in_chunk(m, chunk, now);
    if finishes(chunk) {
        let f = on_finish(e.state);
        let of = owners_in_finish(e.state);
        assert(e.state.tool_calls.dom().finite()) by {
            lemma_dom_stays_finite(m, chunk, now);
        }
        lemma_finish_in_order(e.state);
        let k = e.events.len();
        assert(all =~= e.events + f.events);
        assert forall|p: int, n: int|
            (0 <= p < n < all.len() && #[trigger] all[p] is OutputItemDone && #[trigger] all[n]
                is OutputItemDone) implies {
            ||| rank_of(all[p]) < rank_of(all[n])
            ||| rank_of(all[p]) == 2 && rank_of(all[n]) == 2 && owners[p] is Some
                && owners[n] is Some && owners[p]->0 < owners[n]->0
        } by {
            if p < k {
                assert(all[p] == e.events[p]);
            } else {
                assert(all[p] == f.events[p - k]);
                assert(all[n] == f.events[n - k]);
                assert(owners[p] == of[p - k]);
                assert(owners[n] == of[n - k]);
            }
        }
        assert forall|p: int, n: int|
            (0 <= p < n < all.len() && #[trigger] all[p] is OutputItemDone) implies !(
        #[trigger] all[n] is OutputItemAdded) by {
            if p < k {
                assert(all[p] == e.events[p]);
            } else {
                assert(all[n] == f.events[n - k]);
            }
        }
    }
}

proof fn lemma_owners_len(m: StreamModel, calls: Seq<ChatToolCall>, now: u64)
    ensures
        owners_in_calls(m, calls, now).len() == on_tool_calls(m, calls, now).events.len(),
    decreases calls.len(),
{
    if calls.len() > 0 {
        lemma_owners_len(m, calls.drop_last(), now);
    }
}

proof fn lemma_calls_stay_finite(m: StreamModel, calls: Seq<ChatToolCall>, now: u64)
    requires
        m.tool_calls.dom().finite(),
    ensures
        on_tool_calls(m, calls, now).state.tool_calls.dom().finite(),
    decreases calls.len(),
{
    if calls.len() > 0 {
        lemma_calls_stay_finite(m, calls.drop_last(), now);
    }
}

/// The open calls stay finitely many.
pub proof fn lemma_dom_stays_finite(m: StreamModel, chunk: ChatChunk, now: u64)
    requires
        m.tool_calls.dom().finite(),
    ensures
        before_finish(m, chunk, now).state.tool_calls.dom().finite(),
{
    let d = texts_of(m, chunk, now);
    assert(d.state.tool_calls == m.tool_calls);
    lemma_calls_stay_finite(d.state, pieces_of(chunk), now);
}

} // verus!
