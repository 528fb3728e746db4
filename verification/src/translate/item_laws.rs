//! What holds of the items in every run of a stream converter.

use crate::json::text_of;
use crate::text::string_view;
use crate::translate::chat::ChatChunk;
use crate::translate::chat::ChatToolCall;
use crate::translate::events::EventModel;
use crate::translate::stream_laws::item_is;
use crate::translate::stream_laws::lemma_item_kinds;
use crate::translate::stream_laws::run;
use crate::translate::stream_model::Reading;
use crate::translate::stream_model::Step;
use crate::translate::stream_model::StreamModel;
use crate::translate::stream_model::add_arguments;
use crate::translate::stream_model::add_reasoning;
use crate::translate::stream_model::add_text;
use crate::translate::stream_model::announce_call;
use crate::translate::stream_model::at_count;
use crate::translate::stream_model::call_arguments;
use crate::translate::stream_model::call_item;
use crate::translate::stream_model::close_call;
use crate::translate::stream_model::close_calls;
use crate::translate::stream_model::close_message;
use crate::translate::stream_model::close_reasoning;
use crate::translate::stream_model::followed_by;
use crate::translate::stream_model::in_order;
use crate::translate::stream_model::initial;
use crate::translate::stream_model::label_call;
use crate::translate::stream_model::message_added_item;
use crate::translate::stream_model::message_done_item;
use crate::translate::stream_model::on_chunk;
use crate::translate::stream_model::on_completed;
use crate::translate::stream_model::on_created;
use crate::translate::stream_model::on_finish;
use crate::translate::stream_model::on_reasoning;
use crate::translate::stream_model::on_text;
use crate::translate::stream_model::on_tool_call;
use crate::translate::stream_model::on_tool_calls;
use crate::translate::stream_model::open_message;
use crate::translate::stream_model::open_reasoning;
use crate::translate::stream_model::reasoning_added_item;
use crate::translate::stream_model::reasoning_done_item;
use crate::translate::stream_model::with_usage;
use vstd::prelude::*;

verus! {

/// Whether an event adds the item `id` of the type `kind` at the output index
/// `k`.
pub open spec fn adds(e: EventModel, id: Seq<char>, kind: Seq<char>, k: u32) -> bool {
    match e {
        EventModel::OutputItemAdded { output_index, item, .. } => output_index == k && item_is(
            item,
            kind,
        ) && text_of(item.get("id"@)) == Some(id),
        _ => false,
    }
}

/// Whether one of the events adds the item `id` of the type `kind` at the output
/// index `k`.
pub open spec fn was_added(events: Seq<EventModel>, id: Seq<char>, kind: Seq<char>, k: u32) -> bool {
    exists|p: int| 0 <= p < events.len() && adds(#[trigger] events[p], id, kind, k)
}

/// Whether the item that an event extends or completes was added before: one of
/// `before` adds the same id, of the same type, at the same output index.
pub open spec fn is_backed(e: EventModel, before: Seq<EventModel>) -> bool {
    match e {
        EventModel::OutputTextDelta { item_id, output_index, .. } => was_added(
            before,
            item_id,
            "message"@,
            output_index,
        ),
        EventModel::ReasoningTextDelta { item_id, output_index, .. } => was_added(
            before,
            item_id,
            "reasoning"@,
            output_index,
        ),
        EventModel::OutputItemDone { output_index, item, .. } => {
            &&& text_of(item.get("id"@)) is Some
            &&& text_of(item.get("type"@)) is Some
            &&& was_added(
                before,
                text_of(item.get("id"@))->0,
                text_of(item.get("type"@))->0,
                output_index,
            )
        },
        _ => true,
    }
}

/// Whether the items that events extend or complete were added before.
pub open spec fn all_backed(events: Seq<EventModel>) -> bool {
    forall|n: int| 0 <= n < events.len() ==> is_backed(#[trigger] events[n], events.take(n))
}

/// Whether what is open in a state was added by the events before it.
#[verifier::opaque]
pub open spec fn open_items_were_added(m: StreamModel, events: Seq<EventModel>) -> bool {
    &&& all_backed(events)
    &&& m.message_item_id is Some ==> was_added(
        events,
        m.message_item_id->0,
        "message"@,
        m.message_output_index,
    )
    &&& m.reasoning_item_id is Some ==> was_added(
        events,
        m.reasoning_item_id->0,
        "reasoning"@,
        m.reasoning_output_index,
    )
    &&& forall|i: u32| #[trigger]
        m.tool_calls.contains_key(i) && m.tool_calls[i].added ==> was_added(
            events,
            m.tool_calls[i].item_id,
            "function_call"@,
            m.tool_calls[i].output_index,
        )
}

/// What the items of an answer show of themselves.
pub proof fn lemma_item_labels(id: Seq<char>, call_id: Seq<char>, name: Seq<char>, t: Seq<char>)
    ensures
        text_of(message_added_item(id).get("id"@)) == Some(id),
        text_of(message_added_item(id).get("type"@)) == Some("message"@),
        text_of(reasoning_added_item(id).get("id"@)) == Some(id),
        text_of(reasoning_added_item(id).get("type"@)) == Some("reasoning"@),
        text_of(message_done_item(id, t).get("id"@)) == Some(id),
        text_of(message_done_item(id, t).get("type"@)) == Some("message"@),
        text_of(reasoning_done_item(id, t).get("id"@)) == Some(id),
        text_of(reasoning_done_item(id, t).get("type"@)) == Some("reasoning"@),
        forall|status: Seq<char>|
            text_of(#[trigger] call_item(id, call_id, name, t, status).get("id"@)) == Some(id),
        forall|status: Seq<char>|
            text_of(#[trigger] call_item(id, call_id, name, t, status).get("type"@)) == Some(
                "function_call"@,
            ),
{
    lemma_item_kinds();
}

proof fn lemma_still_added(events: Seq<EventModel>, e: EventModel)
    ensures
        forall|id: Seq<char>, kind: Seq<char>, k: u32|
            was_added(events, id, kind, k) ==> #[trigger] was_added(events.push(e), id, kind, k),
        forall|id: Seq<char>, kind: Seq<char>, k: u32|
            adds(e, id, kind, k) ==> #[trigger] was_added(events.push(e), id, kind, k),
{
    let all = events.push(e);
    assert forall|id: Seq<char>, kind: Seq<char>, k: u32|
        was_added(events, id, kind, k) implies #[trigger] was_added(all, id, kind, k) by {
        let p = choose|p: int| 0 <= p < events.len() && adds(#[trigger] events[p], id, kind, k);
        assert(all[p] == events[p]);
    }
    assert forall|id: Seq<char>, kind: Seq<char>, k: u32|
        adds(e, id, kind, k) implies #[trigger] was_added(all, id, kind, k) by {
        assert(all[events.len() as int] == e);
    }
}

proof fn lemma_backed_push(events: Seq<EventModel>, e: EventModel)
    requires
        all_backed(events),
        is_backed(e, events),
    ensures
        all_backed(events.push(e)),
{
    let all = events.push(e);
    assert forall|n: int| 0 <= n < all.len() implies is_backed(#[trigger] all[n], all.take(n)) by {
        if n < events.len() {
            assert(all[n] == events[n]);
            assert(all.take(n) =~= events.take(n));
        } else {
            assert(all.take(n) =~= events);
        }
    }
}

/// A step with one event, or with none.
proof fn lemma_small_step(m: StreamModel, events: Seq<EventModel>, s: Step)
    requires
        open_items_were_added(m, events),
        s.events.len() <= 1,
        s.events.len() == 1 ==> is_backed(s.events[0], events),
        s.state.message_output_index == m.message_output_index,
        s.state.reasoning_output_index == m.reasoning_output_index,
        s.state.message_item_id is Some ==> s.state.message_item_id == m.message_item_id || (
        s.events.len() == 1 && adds(
            s.events[0],
            s.state.message_item_id->0,
            "message"@,
            m.message_output_index,
        )),
        s.state.reasoning_item_id is Some ==> s.state.reasoning_item_id == m.reasoning_item_id || (
        s.events.len() == 1 && adds(
            s.events[0],
            s.state.reasoning_item_id->0,
            "reasoning"@,
            m.reasoning_output_index,
        )),
        forall|i: u32| #[trigger]
            s.state.tool_calls.contains_key(i) && s.state.tool_calls[i].added ==> {
                ||| m.tool_calls.contains_key(i) && m.tool_calls[i].added
                    && m.tool_calls[i].item_id == s.state.tool_calls[i].item_id
                    && m.tool_calls[i].output_index == s.state.tool_calls[i].output_index
                ||| s.events.len() == 1 && adds(
                    s.events[0],
                    s.state.tool_calls[i].item_id,
                    "function_call"@,
                    s.state.tool_calls[i].output_index,
                )
            },
    ensures
        open_items_were_added(s.state, events + s.events),
{
    reveal(open_items_were_added);
    if s.events.len() == 0 {
        assert(events + s.events =~= events);
    } else {
        let e = s.events[0];
        assert(events + s.events =~= events.push(e));
        lemma_still_added(events, e);
        lemma_backed_push(events, e);
    }
}

proof fn lemma_items_texts(
    m: StreamModel,
    events: Seq<EventModel>,
    text: Option<Seq<char>>,
    now: u64,
)
    requires
        open_items_were_added(m, events),
    ensures
        ({
            let rs = on_reasoning(m, text, now);
            let tx = on_text(m, text, now);
            &&& open_items_were_added(rs.state, events + rs.events)
            &&& open_items_were_added(tx.state, events + tx.events)
        }),
{
    if text is Some && text->0.len() > 0 {
        let o = open_reasoning(m, now);
        lemma_item_labels(o.state.reasoning_item_id->0, text->0, text->0, text->0);
        lemma_small_step(m, events, o);
        let seen = events + o.events;
        let a = add_reasoning(o.state, text->0);
        assert(is_backed(a.events[0], seen)) by {
            reveal(open_items_were_added);
        }
        lemma_small_step(o.state, seen, a);
        assert(seen + a.events =~= events + on_reasoning(m, text, now).events);
        let o2 = open_message(m, now);
        lemma_item_labels(o2.state.message_item_id->0, text->0, text->0, text->0);
        lemma_small_step(m, events, o2);
        let seen2 = events + o2.events;
        let a2 = add_text(o2.state, text->0);
        assert(is_backed(a2.events[0], seen2)) by {
            reveal(open_items_were_added);
        }
        lemma_small_step(o2.state, seen2, a2);
        assert(seen2 + a2.events =~= events + on_text(m, text, now).events);
    } else {
        assert(events + Seq::<EventModel>::empty() =~= events);
    }
}

proof fn lemma_items_call(m: StreamModel, events: Seq<EventModel>, tc: ChatToolCall, now: u64)
    requires
        open_items_were_added(m, events),
    ensures
        ({
            let s = on_tool_call(m, tc, now);
            open_items_were_added(s.state, events + s.events)
        }),
{
    let l = label_call(m, tc, now);
    let labelled_step = Step { state: l, events: Seq::empty() };
    lemma_small_step(m, events, labelled_step);
    assert(events + labelled_step.events =~= events);
    let announced = announce_call(l, tc.index);
    let t = l.tool_calls[tc.index];
    lemma_item_labels(t.item_id, t.call_id, t.name, ""@);
    lemma_small_step(l, events, announced);
    let seen = events + announced.events;
    let added = add_arguments(announced.state, tc.index, call_arguments(tc));
    assert(announced.state.tool_calls.contains_key(tc.index));
    lemma_small_step(announced.state, seen, added);
    assert(seen + added.events =~= events + on_tool_call(m, tc, now).events);
}

proof fn lemma_items_calls(
    m: StreamModel,
    events: Seq<EventModel>,
    calls: Seq<ChatToolCall>,
    now: u64,
)
    requires
        open_items_were_added(m, events),
    ensures
        ({
            let s = on_tool_calls(m, calls, now);
            open_items_were_added(s.state, events + s.events)
        }),
    decreases calls.len(),
{
    if calls.len() == 0 {
        assert(events + Seq::<EventModel>::empty() =~= events);
    } else {
        let before = on_tool_calls(m, calls.drop_last(), now);
        lemma_items_calls(m, events, calls.drop_last(), now);
        let seen = events + before.events;
        lemma_items_call(before.state, seen, calls.last(), now);
        assert(seen + on_tool_call(before.state, calls.last(), now).events =~= events
            + on_tool_calls(m, calls, now).events);
    }
}

/// The indices of open calls, without those of the first `n`, are open after the
/// first `n` have been closed.
proof fn lemma_items_close_calls(m: StreamModel, events: Seq<EventModel>, indices: Seq<u32>)
    requires
        open_items_were_added(m, events),
        indices.no_duplicates(),
        forall|i: int| 0 <= i < indices.len() ==> m.tool_calls.contains_key(#[trigger] indices[i]),
    ensures
        ({
            let s = close_calls(m, indices);
            &&& open_items_were_added(s.state, events + s.events)
            &&& s.state.tool_calls == m.tool_calls.remove_keys(indices.to_set())
            &&& s.state.message_output_index == m.message_output_index
            &&& s.state.reasoning_output_index == m.reasoning_output_index
        }),
    decreases indices.len(),
{
    let s = close_calls(m, indices);
    if indices.len() == 0 {
        assert(events + Seq::<EventModel>::empty() =~= events);
        assert(s.state.tool_calls =~= m.tool_calls.remove_keys(indices.to_set()));
    } else {
        let first = indices.drop_last();
        let x = indices.last();
        assert forall|i: int| 0 <= i < first.len() implies m.tool_calls.contains_key(
            #[trigger] first[i],
        ) by {
            assert(first[i] == indices[i]);
        }
        let before = close_calls(m, first);
        lemma_items_close_calls(m, events, first);
        let seen = events + before.events;
        assert(!first.to_set().contains(x));
        assert(m.tool_calls.contains_key(indices[indices.len() - 1]));
        assert(before.state.tool_calls.contains_key(x));
        let closed = close_call(before.state, x);
        let t = before.state.tool_calls[x];
        lemma_item_labels(t.item_id, t.call_id, t.name, t.arguments);
        assert(closed.events.len() == 1 ==> is_backed(closed.events[0], seen)) by {
            reveal(open_items_were_added);
        }
        lemma_small_step(before.state, seen, closed);
        assert(seen + closed.events =~= events + s.events);
        first.lemma_push_to_set_commute(x);
        assert(first.push(x) =~= indices);
        assert(s.state.tool_calls =~= m.tool_calls.remove_keys(indices.to_set()));
    }
}

proof fn lemma_items_finish(m: StreamModel, events: Seq<EventModel>)
    requires
        open_items_were_added(m, events),
        m.tool_calls.dom().finite(),
    ensures
        ({
            let s = on_finish(m);
            &&& open_items_were_added(s.state, events + s.events)
            &&& s.state.tool_calls.dom().finite()
        }),
{
    let a = close_reasoning(m);
    lemma_item_labels(m.reasoning_item_id->0, ""@, ""@, m.reasoning_text);
    assert(a.events.len() == 1 ==> is_backed(a.events[0], events)) by {
        reveal(open_items_were_added);
    }
    lemma_small_step(m, events, a);
    let seen_a = events + a.events;
    let cm = close_message(a.state);
    lemma_item_labels(m.message_item_id->0, ""@, ""@, m.message_text);
    assert(cm.events.len() == 1 ==> is_backed(cm.events[0], seen_a)) by {
        reveal(open_items_were_added);
    }
    lemma_small_step(a.state, seen_a, cm);
    let b = followed_by(a, cm);
    let seen_b = seen_a + cm.events;
    let order = in_order(b.state.tool_calls.dom());
    crate::translate::call_laws::in_order_is_ascending(b.state.tool_calls.dom());
    assert forall|i: int| 0 <= i < order.len() implies b.state.tool_calls.contains_key(
        #[trigger] order[i],
    ) by {
        assert(order.to_set().contains(order[i]));
    }
    lemma_items_close_calls(b.state, seen_b, order);
    let calls = close_calls(b.state, order);
    let seen_c = seen_b + calls.events;
    let c = followed_by(b, calls);
    let done = on_completed(c.state);
    lemma_small_step(c.state, seen_c, done);
    assert(seen_c + done.events =~= events + on_finish(m).events);
    assert(done.state.tool_calls.dom() =~= Set::<u32>::empty());
}

proof fn lemma_calls_finite(m: StreamModel, calls: Seq<ChatToolCall>, now: u64)
    requires
        m.tool_calls.dom().finite(),
    ensures
        on_tool_calls(m, calls, now).state.tool_calls.dom().finite(),
    decreases calls.len(),
{
    if calls.len() > 0 {
        lemma_calls_finite(m, calls.drop_last(), now);
    }
}

proof fn lemma_items_chunk(m: StreamModel, events: Seq<EventModel>, chunk: ChatChunk, now: u64)
    requires
        open_items_were_added(m, events),
        m.tool_calls.dom().finite(),
    ensures
        ({
            let s = on_chunk(m, chunk, now);
            &&& open_items_were_added(s.state, events + s.events)
            &&& s.state.tool_calls.dom().finite()
        }),
{
    let a = on_created(m);
    let b = Step { state: with_usage(a.state, chunk.usage), ..a };
    lemma_small_step(m, events, b);
    let seen_b = events + b.events;
    if chunk.choices@.len() > 0 {
        let choice = chunk.choices@[0];
        let rs = on_reasoning(b.state, string_view(choice.delta.reasoning_content), now);
        lemma_items_texts(b.state, seen_b, string_view(choice.delta.reasoning_content), now);
        let c = followed_by(b, rs);
        let seen_c = seen_b + rs.events;
        let tx = on_text(c.state, string_view(choice.delta.content), now);
        lemma_items_texts(c.state, seen_c, string_view(choice.delta.content), now);
        let d = followed_by(c, tx);
        let seen_d = seen_c + tx.events;
        assert(seen_d =~= events + d.events);
        assert(d.state.tool_calls == m.tool_calls);
        let e = match choice.delta.tool_calls {
            Some(calls) => {
                lemma_items_calls(d.state, seen_d, calls@, now);
                lemma_calls_finite(d.state, calls@, now);
                let tcs = on_tool_calls(d.state, calls@, now);
                assert(seen_d + tcs.events =~= events + followed_by(d, tcs).events);
                followed_by(d, tcs)
            },
            None => d,
        };
        if choice.finish_reason is Some {
            lemma_items_finish(e.state, events + e.events);
            assert((events + e.events) + on_finish(e.state).events =~= events + followed_by(
                e,
                on_finish(e.state),
            ).events);
        }
    }
}

proof fn lemma_items_run(m: StreamModel, chunks: Seq<ChatChunk>, readings: Seq<Reading>)
    requires
        open_items_were_added(m, Seq::empty()),
        m.tool_calls.dom().finite(),
    ensures
        ({
            let s = run(m, chunks, readings);
            &&& open_items_were_added(s.state, s.events)
            &&& s.state.tool_calls.dom().finite()
        }),
    decreases chunks.len(),
{
    if chunks.len() > 0 {
        let before = run(m, chunks.drop_last(), readings);
        lemma_items_run(m, chunks.drop_last(), readings);
        let r = readings[chunks.len() - 1];
        let at = at_count(before.state, r.count);
        assert(open_items_were_added(at, before.events)) by {
            reveal(open_items_were_added);
        }
        lemma_items_chunk(at, before.events, chunks.last(), r.now);
    }
}

/// An item is added before a piece of its text is shown, and before it is
/// completed, under the same id, with the same type and at the same output index.
pub proof fn items_are_added_first(
    model: Seq<char>,
    count_before: u64,
    now: u64,
    secs: u64,
    chunks: Seq<ChatChunk>,
    readings: Seq<Reading>,
)
    ensures
        all_backed(run(initial(model, count_before, now, secs), chunks, readings).events),
{
    let m = initial(model, count_before, now, secs);
    reveal(open_items_were_added);
    lemma_items_run(m, chunks, readings);
}

} // verus!
