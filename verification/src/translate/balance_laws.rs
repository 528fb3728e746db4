//! What is announced is completed: the items of an answer, counted.

use crate::json::Json;
use crate::json::text_of;
use crate::text::string_view;
use crate::translate::call_laws::in_order_is_ascending;
use crate::translate::chat::ChatChunk;
use crate::translate::chat::ChatToolCall;
use crate::translate::chat::ChatUsage;
use crate::translate::events::EventModel;
use crate::translate::index_laws::adds_nothing;
use crate::translate::index_laws::before_finish;
use crate::translate::index_laws::close_all_calls;
use crate::translate::index_laws::close_texts;
use crate::translate::index_laws::completed_in_order;
use crate::translate::index_laws::completes_nothing;
use crate::translate::index_laws::finishes;
use crate::translate::index_laws::holds_calls;
use crate::translate::index_laws::items_are_completed_in_order;
use crate::translate::index_laws::lemma_chunk_parts;
use crate::translate::index_laws::lemma_finish_in_order;
use crate::translate::index_laws::lemma_holds_at_count;
use crate::translate::index_laws::lemma_holds_before_finish;
use crate::translate::index_laws::lemma_holds_none;
use crate::translate::index_laws::lemma_holds_run;
use crate::translate::index_laws::lemma_none_before_last;
use crate::translate::index_laws::lemma_nothing_before_finish;
use crate::translate::index_laws::lemma_places_differ;
use crate::translate::index_laws::only_the_last_may_finish;
use crate::translate::index_laws::owners_in_chunk;
use crate::translate::index_laws::pieces_of;
use crate::translate::index_laws::pieces_of_all;
use crate::translate::index_laws::texts_of;
use crate::translate::item_laws::lemma_item_labels;
use crate::translate::stream_laws::as_number;
use crate::translate::stream_laws::count;
use crate::translate::stream_laws::lemma_count_concat;
use crate::translate::stream_laws::lemma_item_kinds;
use crate::translate::stream_laws::lemma_one_event;
use crate::translate::stream_laws::run;
use crate::translate::stream_model::add_arguments;
use crate::translate::stream_model::add_reasoning;
use crate::translate::stream_model::add_text;
use crate::translate::stream_model::announce_call;
use crate::translate::stream_model::at_count;
use crate::translate::stream_model::call_arguments;
use crate::translate::stream_model::close_call;
use crate::translate::stream_model::close_calls;
use crate::translate::stream_model::close_message;
use crate::translate::stream_model::close_reasoning;
use crate::translate::stream_model::followed_by;
use crate::translate::stream_model::in_order;
use crate::translate::stream_model::initial;
use crate::translate::stream_model::label_call;
use crate::translate::stream_model::no_step;
use crate::translate::stream_model::on_chunk;
use crate::translate::stream_model::on_chunk_at;
use crate::translate::stream_model::on_completed;
use crate::translate::stream_model::on_created;
use crate::translate::stream_model::on_finish;
use crate::translate::stream_model::on_reasoning;
use crate::translate::stream_model::on_text;
use crate::translate::stream_model::on_tool_call;
use crate::translate::stream_model::on_tool_calls;
use crate::translate::stream_model::open_message;
use crate::translate::stream_model::open_reasoning;
use crate::translate::stream_model::Reading;
use crate::translate::stream_model::Step;
use crate::translate::stream_model::StreamModel;
use crate::translate::stream_model::with_usage;
use vstd::prelude::*;

verus! {

/// An item of an answer, by what its events show of it.
pub struct Item {
    pub kind: Seq<char>,
    pub id: Seq<char>,
    pub output_index: u32,
}

/// Whether `item`, at the output index `k`, is the item `x`.
pub open spec fn is_item(item: Json, k: u32, x: Item) -> bool {
    &&& text_of(item.get("type"@)) == Some(x.kind)
    &&& text_of(item.get("id"@)) == Some(x.id)
    &&& k == x.output_index
}

/// An event that adds the item `x`.
pub open spec fn adds_item(x: Item) -> spec_fn(EventModel) -> bool {
    |e: EventModel|
        match e {
            EventModel::OutputItemAdded { output_index, item, .. } => is_item(
                item,
                output_index,
                x,
            ),
            _ => false,
        }
}

/// An event that completes the item `x`.
pub open spec fn completes_item(x: Item) -> spec_fn(EventModel) -> bool {
    |e: EventModel|
        match e {
            EventModel::OutputItemDone { output_index, item, .. } => is_item(
                item,
                output_index,
                x,
            ),
            _ => false,
        }
}

/// The open calls that are the item `x`.
pub open spec fn open_calls(m: StreamModel, x: Item) -> Set<u32> {
    m.tool_calls.dom().filter(
        |i: u32|
            x.kind == "function_call"@ && m.tool_calls[i].added && m.tool_calls[i].item_id == x.id
                && m.tool_calls[i].output_index == x.output_index,
    )
}

/// How many open items are the item `x`.
pub open spec fn open_count(m: StreamModel, x: Item) -> nat {
    as_number(
        x.kind == "message"@ && m.message_item_id == Some(x.id) && m.message_output_index
            == x.output_index,
    ) + as_number(
        x.kind == "reasoning"@ && m.reasoning_item_id == Some(x.id) && m.reasoning_output_index
            == x.output_index,
    ) + open_calls(m, x).len()
}

/// Whether a step keeps the count of the item `x`: what was open and what it adds
/// is what it completes and what is open after it.
pub open spec fn keeps_count(m: StreamModel, s: Step, x: Item) -> bool {
    open_count(m, x) + count(s.events, adds_item(x)) == count(s.events, completes_item(x))
        + open_count(s.state, x)
}

/// Whether a step keeps the count of every item.
#[verifier::opaque]
pub open spec fn balanced(m: StreamModel, s: Step) -> bool {
    &&& s.state.tool_calls.dom().finite()
    &&& forall|x: Item| #[trigger] keeps_count(m, s, x)
}

proof fn lemma_balanced_followed(m: StreamModel, a: Step, b: Step)
    requires
        balanced(m, a),
        balanced(a.state, b),
    ensures
        balanced(m, followed_by(a, b)),
{
    reveal(balanced);
    let s = followed_by(a, b);
    assert forall|x: Item| #[trigger] keeps_count(m, s, x) by {
        assert(keeps_count(m, a, x));
        assert(keeps_count(a.state, b, x));
        lemma_count_concat(a.events, b.events, adds_item(x));
        lemma_count_concat(a.events, b.events, completes_item(x));
    }
}

/// A step without events that keeps what is open.
proof fn lemma_balanced_none(m: StreamModel, to: StreamModel)
    requires
        m.tool_calls.dom().finite(),
        to.tool_calls.dom().finite(),
        to.message_item_id == m.message_item_id,
        to.reasoning_item_id == m.reasoning_item_id,
        to.message_output_index == m.message_output_index,
        to.reasoning_output_index == m.reasoning_output_index,
        forall|i: u32|
            ({
                let was = m.tool_calls.contains_key(i) && m.tool_calls[i].added;
                let is = #[trigger] to.tool_calls.contains_key(i) && to.tool_calls[i].added;
                &&& was == is
                &&& is ==> to.tool_calls[i].item_id == m.tool_calls[i].item_id
                    && to.tool_calls[i].output_index == m.tool_calls[i].output_index
            }),
    ensures
        balanced(m, no_step(to)),
{
    reveal(balanced);
    assert forall|x: Item| #[trigger] keeps_count(m, no_step(to), x) by {
        assert(open_calls(to, x) =~= open_calls(m, x)) by {
            assert forall|i: u32| open_calls(to, x).contains(i) == open_calls(m, x).contains(
                i,
            ) by {
                assert(to.tool_calls.contains_key(i) == to.tool_calls.dom().contains(i));
                assert(m.tool_calls.contains_key(i) == m.tool_calls.dom().contains(i));
            }
        }
    }
}

/// A step with one event that neither adds nor completes an item, and keeps what
/// is open.
proof fn lemma_balanced_event(m: StreamModel, s: Step)
    requires
        balanced(m, no_step(s.state)),
        s.events.len() == 1,
        !(s.events[0] is OutputItemAdded),
        !(s.events[0] is OutputItemDone),
    ensures
        balanced(m, s),
{
    reveal(balanced);
    assert forall|x: Item| #[trigger] keeps_count(m, s, x) by {
        assert(keeps_count(m, no_step(s.state), x));
        lemma_one_event(s.events[0]);
        assert(s.events =~= seq![s.events[0]]);
    }
}

proof fn lemma_balanced_created(m: StreamModel, usage: Option<ChatUsage>)
    requires
        m.tool_calls.dom().finite(),
    ensures
        balanced(m, Step { state: with_usage(on_created(m).state, usage), ..on_created(m) }),
{
    let a = on_created(m);
    let s = Step { state: with_usage(a.state, usage), ..a };
    lemma_balanced_none(m, s.state);
    if s.events.len() == 0 {
        assert(s.events =~= Seq::<EventModel>::empty());
        assert(s == no_step(s.state));
    } else {
        lemma_balanced_event(m, s);
    }
}

proof fn lemma_balanced_completed(m: StreamModel)
    requires
        m.tool_calls.dom().finite(),
    ensures
        balanced(m, on_completed(m)),
{
    let s = on_completed(m);
    lemma_balanced_none(m, s.state);
    if s.events.len() > 0 {
        lemma_balanced_event(m, s);
    }
}

proof fn lemma_balanced_texts(m: StreamModel, text: Option<Seq<char>>, now: u64)
    requires
        m.tool_calls.dom().finite(),
    ensures
        balanced(m, on_reasoning(m, text, now)),
        balanced(m, on_text(m, text, now)),
{
    lemma_balanced_none(m, m);
    if text is Some && text->0.len() > 0 {
        lemma_item_kinds();
        let o = open_reasoning(m, now);
        assert(balanced(m, o)) by {
            if o.events.len() > 0 {
                let id = o.state.reasoning_item_id->0;
                lemma_item_labels(id, id, id, id);
                lemma_one_event(o.events[0]);
                reveal(balanced);
                assert forall|x: Item| #[trigger] keeps_count(m, o, x) by {
                    assert(open_calls(o.state, x) =~= open_calls(m, x));
                }
            }
        }
        let a = add_reasoning(o.state, text->0);
        lemma_balanced_none(o.state, a.state);
        lemma_balanced_event(o.state, a);
        lemma_balanced_followed(m, o, a);
        let o2 = open_message(m, now);
        assert(balanced(m, o2)) by {
            if o2.events.len() > 0 {
                let id = o2.state.message_item_id->0;
                lemma_item_labels(id, id, id, id);
                lemma_one_event(o2.events[0]);
                reveal(balanced);
                assert forall|x: Item| #[trigger] keeps_count(m, o2, x) by {
                    assert(open_calls(o2.state, x) =~= open_calls(m, x));
                }
            }
        }
        let a2 = add_text(o2.state, text->0);
        lemma_balanced_none(o2.state, a2.state);
        lemma_balanced_event(o2.state, a2);
        lemma_balanced_followed(m, o2, a2);
    }
}

/// The announcement of a call opens one item.
proof fn lemma_balanced_announce(m: StreamModel, index: u32)
    requires
        m.tool_calls.dom().finite(),
        m.tool_calls.contains_key(index),
    ensures
        balanced(m, announce_call(m, index)),
{
    let s = announce_call(m, index);
    lemma_balanced_none(m, m);
    if s.events.len() > 0 {
        lemma_item_kinds();
        let t = m.tool_calls[index];
        lemma_item_labels(t.item_id, t.call_id, t.name, ""@);
        lemma_one_event(s.events[0]);
        reveal(balanced);
        assert(s.state.tool_calls.dom() =~= m.tool_calls.dom());
        assert forall|x: Item| #[trigger] keeps_count(m, s, x) by {
            let before = open_calls(m, x);
            let after = open_calls(s.state, x);
            let is_it = x.kind == "function_call"@ && t.item_id == x.id && t.output_index
                == x.output_index;
            assert(before.finite());
            assert(!before.contains(index));
            if is_it {
                assert(after =~= before.insert(index));
            } else {
                assert(after =~= before);
            }
        }
    }
}

/// The end of a call completes it, where it has been announced.
proof fn lemma_balanced_close(m: StreamModel, index: u32)
    requires
        m.tool_calls.dom().finite(),
        m.tool_calls.contains_key(index),
    ensures
        balanced(m, close_call(m, index)),
{
    let s = close_call(m, index);
    let t = m.tool_calls[index];
    lemma_item_kinds();
    lemma_item_labels(t.item_id, t.call_id, t.name, t.arguments);
    if s.events.len() > 0 {
        lemma_one_event(s.events[0]);
    }
    reveal(balanced);
    assert forall|x: Item| #[trigger] keeps_count(m, s, x) by {
        let before = open_calls(m, x);
        let after = open_calls(s.state, x);
        assert(before.finite());
        assert(after =~= before.remove(index));
        let is_it = t.added && x.kind == "function_call"@ && t.item_id == x.id
            && t.output_index == x.output_index;
        assert(before.contains(index) == is_it);
    }
}

proof fn lemma_balanced_call(m: StreamModel, tc: ChatToolCall, now: u64)
    requires
        m.tool_calls.dom().finite(),
    ensures
        balanced(m, on_tool_call(m, tc, now)),
{
    let l = label_call(m, tc, now);
    lemma_balanced_none(m, l);
    let announced = announce_call(l, tc.index);
    lemma_balanced_announce(l, tc.index);
    lemma_balanced_followed(m, no_step(l), announced);
    assert(followed_by(no_step(l), announced).events =~= announced.events);
    let n = announced.state;
    assert(n.tool_calls.dom().finite());
    let added = add_arguments(n, tc.index, call_arguments(tc));
    assert(n.tool_calls.contains_key(tc.index));
    lemma_balanced_none(n, added.state);
    if added.events.len() > 0 {
        lemma_balanced_event(n, added);
    }
    lemma_balanced_followed(m, announced, added);
}

proof fn lemma_balanced_calls(m: StreamModel, calls: Seq<ChatToolCall>, now: u64)
    requires
        m.tool_calls.dom().finite(),
    ensures
        balanced(m, on_tool_calls(m, calls, now)),
        on_tool_calls(m, calls, now).state.tool_calls.dom().finite(),
    decreases calls.len(),
{
    if calls.len() == 0 {
        lemma_balanced_none(m, m);
    } else {
        let before = on_tool_calls(m, calls.drop_last(), now);
        lemma_balanced_calls(m, calls.drop_last(), now);
        lemma_balanced_call(before.state, calls.last(), now);
        let step = on_tool_call(before.state, calls.last(), now);
        lemma_balanced_followed(m, before, step);
        assert(step.state.tool_calls.dom().finite()) by {
            reveal(balanced);
        }
    }
}

proof fn lemma_balanced_before_finish(m: StreamModel, chunk: ChatChunk, now: u64)
    requires
        m.tool_calls.dom().finite(),
    ensures
        balanced(m, before_finish(m, chunk, now)),
        before_finish(m, chunk, now).state.tool_calls.dom().finite(),
{
    let a = on_created(m);
    let b = Step { state: with_usage(a.state, chunk.usage), ..a };
    lemma_balanced_created(m, chunk.usage);
    let d = texts_of(m, chunk, now);
    if chunk.choices@.len() > 0 {
        let delta = chunk.choices@[0].delta;
        let rs = on_reasoning(b.state, string_view(delta.reasoning_content), now);
        lemma_balanced_texts(b.state, string_view(delta.reasoning_content), now);
        lemma_balanced_followed(m, b, rs);
        let c = followed_by(b, rs);
        let tx = on_text(c.state, string_view(delta.content), now);
        lemma_balanced_texts(c.state, string_view(delta.content), now);
        lemma_balanced_followed(m, c, tx);
    }
    assert(d.state.tool_calls == m.tool_calls);
    lemma_balanced_calls(d.state, pieces_of(chunk), now);
    lemma_balanced_followed(m, d, on_tool_calls(d.state, pieces_of(chunk), now));
}

proof fn lemma_balanced_close_texts(m: StreamModel)
    requires
        m.tool_calls.dom().finite(),
    ensures
        balanced(m, close_texts(m)),
{
    lemma_item_kinds();
    lemma_balanced_none(m, m);
    let a = close_reasoning(m);
    assert(balanced(m, a)) by {
        if a.events.len() > 0 {
            let id = m.reasoning_item_id->0;
            lemma_item_labels(id, id, id, m.reasoning_text);
            lemma_one_event(a.events[0]);
            reveal(balanced);
            assert forall|x: Item| #[trigger] keeps_count(m, a, x) by {
                assert(open_calls(a.state, x) =~= open_calls(m, x));
            }
        }
    }
    let am = a.state;
    lemma_balanced_none(am, am);
    let cm = close_message(am);
    assert(balanced(am, cm)) by {
        if cm.events.len() > 0 {
            let id = am.message_item_id->0;
            lemma_item_labels(id, id, id, am.message_text);
            lemma_one_event(cm.events[0]);
            reveal(balanced);
            assert forall|x: Item| #[trigger] keeps_count(am, cm, x) by {
                assert(open_calls(cm.state, x) =~= open_calls(am, x));
            }
        }
    }
    lemma_balanced_followed(m, a, cm);
}

proof fn lemma_balanced_close_calls(m: StreamModel, indices: Seq<u32>)
    requires
        m.tool_calls.dom().finite(),
        indices.no_duplicates(),
        forall|i: int| 0 <= i < indices.len() ==> m.tool_calls.contains_key(#[trigger] indices[i]),
    ensures
        ({
            let s = close_calls(m, indices);
            &&& balanced(m, s)
            &&& s.state.tool_calls.dom().finite()
            &&& s.state.tool_calls.dom() == m.tool_calls.dom().difference(indices.to_set())
            &&& s.state.message_item_id == m.message_item_id
            &&& s.state.reasoning_item_id == m.reasoning_item_id
        }),
    decreases indices.len(),
{
    let s = close_calls(m, indices);
    if indices.len() == 0 {
        lemma_balanced_none(m, m);
        assert(s.state.tool_calls.dom() =~= m.tool_calls.dom().difference(indices.to_set()));
    } else {
        let first = indices.drop_last();
        let x = indices.last();
        assert forall|i: int| 0 <= i < first.len() implies m.tool_calls.contains_key(
            #[trigger] first[i],
        ) by {
            assert(first[i] == indices[i]);
        }
        let before = close_calls(m, first);
        lemma_balanced_close_calls(m, first);
        assert(!first.to_set().contains(x));
        assert(m.tool_calls.contains_key(indices[indices.len() - 1]));
        assert(before.state.tool_calls.dom().contains(x));
        lemma_balanced_close(before.state, x);
        lemma_balanced_followed(m, before, close_call(before.state, x));
        first.lemma_push_to_set_commute(x);
        assert(first.push(x) =~= indices);
        assert(s.state.tool_calls.dom() =~= m.tool_calls.dom().difference(indices.to_set()));
    }
}

proof fn lemma_balanced_finish(m: StreamModel)
    requires
        m.tool_calls.dom().finite(),
    ensures
        balanced(m, on_finish(m)),
        on_finish(m).state.tool_calls.dom() == Set::<u32>::empty(),
        forall|x: Item| #[trigger] open_count(on_finish(m).state, x) == 0,
{
    let b = close_texts(m);
    lemma_balanced_close_texts(m);
    let bm = b.state;
    let indices = in_order(bm.tool_calls.dom());
    in_order_is_ascending(bm.tool_calls.dom());
    assert forall|i: int| 0 <= i < indices.len() implies bm.tool_calls.contains_key(
        #[trigger] indices[i],
    ) by {
        assert(indices.to_set().contains(indices[i]));
    }
    lemma_balanced_close_calls(bm, indices);
    let c = close_all_calls(bm);
    lemma_balanced_followed(m, b, c);
    lemma_balanced_completed(c.state);
    let done = on_completed(c.state);
    lemma_balanced_followed(m, followed_by(b, c), done);
    let s = on_finish(m);
    assert(s == followed_by(followed_by(b, c), done));
    assert(s.state.tool_calls.dom() =~= Set::<u32>::empty());
    assert forall|x: Item| #[trigger] open_count(s.state, x) == 0 by {
        assert(open_calls(s.state, x) =~= Set::<u32>::empty());
    }
}

/// Every chunk keeps the count of every item, and a chunk that ends the answer
/// leaves none open.
pub proof fn chunks_keep_count(m: StreamModel, chunk: ChatChunk, now: u64)
    requires
        m.tool_calls.dom().finite(),
    ensures
        on_chunk(m, chunk, now).state.tool_calls.dom().finite(),
        forall|x: Item| #[trigger] keeps_count(m, on_chunk(m, chunk, now), x),
        finishes(chunk) ==> forall|x: Item| #[trigger]
            open_count(on_chunk(m, chunk, now).state, x) == 0,
        finishes(chunk) ==> on_chunk(m, chunk, now).state.tool_calls.dom() == Set::<u32>::empty(),
{
    let e = before_finish(m, chunk, now);
    lemma_balanced_before_finish(m, chunk, now);
    lemma_chunk_parts(m, chunk, now);
    if finishes(chunk) {
        lemma_balanced_finish(e.state);
        lemma_balanced_followed(m, e, on_finish(e.state));
    }
    reveal(balanced);
}

proof fn lemma_run_keeps_count(m: StreamModel, chunks: Seq<ChatChunk>, readings: Seq<Reading>)
    requires
        m.tool_calls.dom().finite(),
    ensures
        run(m, chunks, readings).state.tool_calls.dom().finite(),
        forall|x: Item| #[trigger] keeps_count(m, run(m, chunks, readings), x),
        chunks.len() > 0 && finishes(chunks.last()) ==> forall|x: Item| #[trigger]
            open_count(run(m, chunks, readings).state, x) == 0,
        chunks.len() > 0 && finishes(chunks.last()) ==> run(
            m,
            chunks,
            readings,
        ).state.tool_calls.dom() == Set::<u32>::empty(),
    decreases chunks.len(),
{
    let s = run(m, chunks, readings);
    if chunks.len() == 0 {
        lemma_balanced_none(m, m);
        reveal(balanced);
    } else {
        let before = run(m, chunks.drop_last(), readings);
        lemma_run_keeps_count(m, chunks.drop_last(), readings);
        let r = readings[chunks.len() - 1];
        let at = at_count(before.state, r.count);
        chunks_keep_count(at, chunks.last(), r.now);
        let step = on_chunk_at(before.state, chunks.last(), r);
        assert forall|x: Item| #[trigger] keeps_count(m, s, x) by {
            assert(keeps_count(m, before, x));
            assert(keeps_count(at, step, x));
            assert(open_calls(at, x) =~= open_calls(before.state, x));
            lemma_count_concat(before.events, step.events, adds_item(x));
            lemma_count_concat(before.events, step.events, completes_item(x));
        }
    }
}

/// A chunk that ends the answer leaves no tool call open.
pub proof fn a_finish_closes_the_calls(
    model: Seq<char>,
    count_before: u64,
    now: u64,
    secs: u64,
    chunks: Seq<ChatChunk>,
    readings: Seq<Reading>,
)
    requires
        chunks.len() > 0,
        finishes(chunks.last()),
    ensures
        ({
            let s = run(initial(model, count_before, now, secs), chunks, readings);
            s.state.tool_calls.dom() == Set::<u32>::empty()
        }),
{
    lemma_run_keeps_count(initial(model, count_before, now, secs), chunks, readings);
}

proof fn lemma_nothing_counts(events: Seq<EventModel>, x: Item)
    requires
        completes_nothing(events),
    ensures
        count(events, completes_item(x)) == 0,
    decreases events.len(),
{
    if events.len() > 0 {
        let before = events.drop_last();
        assert forall|n: int| 0 <= n < before.len() implies !(
        #[trigger] before[n] is OutputItemDone) by {
            assert(before[n] == events[n]);
        }
        lemma_nothing_counts(before, x);
        assert(!(events[events.len() - 1] is OutputItemDone));
    }
}

/// Chunks that do not end the answer complete nothing.
proof fn lemma_run_completes_nothing(
    m: StreamModel,
    chunks: Seq<ChatChunk>,
    readings: Seq<Reading>,
)
    requires
        forall|i: int| 0 <= i < chunks.len() ==> !finishes(#[trigger] chunks[i]),
    ensures
        completes_nothing(run(m, chunks, readings).events),
    decreases chunks.len(),
{
    if chunks.len() > 0 {
        let first = chunks.drop_last();
        assert forall|i: int| 0 <= i < first.len() implies !finishes(#[trigger] first[i]) by {
            assert(first[i] == chunks[i]);
        }
        lemma_run_completes_nothing(m, first, readings);
        let before = run(m, first, readings);
        let r = readings[chunks.len() - 1];
        let at = at_count(before.state, r.count);
        assert(!finishes(chunks[chunks.len() - 1]));
        lemma_nothing_before_finish(at, chunks.last(), r.now);
        lemma_chunk_parts(at, chunks.last(), r.now);
    }
}

/// No two open items are the same: calls that are open at the same time have
/// different output indices.
proof fn lemma_open_once(m: StreamModel, start: u32, pieces: Seq<ChatToolCall>, x: Item)
    requires
        holds_calls(m, start, pieces),
    ensures
        open_count(m, x) <= 1,
{
    assert(m.tool_calls.dom().finite()) by {
        reveal(holds_calls);
    }
    lemma_item_kinds();
    let s = open_calls(m, x);
    assert(s.finite());
    if s.len() > 1 {
        let a = s.choose();
        assert(s.contains(a));
        let rest = s.remove(a);
        assert(rest.len() > 0);
        let b = rest.choose();
        assert(rest.contains(b));
        assert(m.tool_calls.contains_key(a) && m.tool_calls.contains_key(b));
        lemma_places_differ(m, start, pieces, a, b);
        assert(false);
    }
    if x.kind != "function_call"@ {
        assert(s =~= Set::<u32>::empty());
    }
}

/// A chunk that ends the answer completes exactly what was added since the last
/// such chunk, itself included: each item once, under the same id, with the same
/// type and at the same output index, in order, after the last item is added.
/// Before it nothing is completed.
pub proof fn a_finish_completes_what_was_added(
    model: Seq<char>,
    count_before: u64,
    now: u64,
    secs: u64,
    earlier: Seq<ChatChunk>,
    earlier_readings: Seq<Reading>,
    chunks: Seq<ChatChunk>,
    readings: Seq<Reading>,
)
    requires
        earlier.len() > 0 ==> finishes(earlier.last()),
        chunks.len() > 0,
        finishes(chunks.last()),
        only_the_last_may_finish(chunks),
    ensures
        ({
            let m = run(
                initial(model, count_before, now, secs),
                earlier,
                earlier_readings,
            ).state;
            let before = run(m, chunks.drop_last(), readings);
            let r = readings[chunks.len() - 1];
            let at = at_count(before.state, r.count);
            let out = on_chunk_at(before.state, chunks.last(), r).events;
            &&& run(m, chunks, readings).events == before.events + out
            &&& completes_nothing(before.events)
            &&& completed_in_order(out, owners_in_chunk(at, chunks.last(), r.now))
            &&& forall|x: Item|
                #![trigger count(out, completes_item(x))]
                count(out, completes_item(x)) <= 1 && count(out, completes_item(x)) == count(
                    before.events + out,
                    adds_item(x),
                )
        }),
{
    let fresh = initial(model, count_before, now, secs);
    let m = run(fresh, earlier, earlier_readings).state;
    lemma_run_keeps_count(fresh, earlier, earlier_readings);
    let first = chunks.drop_last();
    let chunk = chunks.last();
    let before = run(m, first, readings);
    let r = readings[chunks.len() - 1];
    let at = at_count(before.state, r.count);
    let out = on_chunk_at(before.state, chunk, r).events;
    let start = m.next_tool_output_index;
    let p0 = pieces_of_all(first);
    assert(m.tool_calls.dom() =~= Set::<u32>::empty());
    lemma_holds_none(m);
    lemma_none_before_last(chunks);
    lemma_run_completes_nothing(m, first, readings);
    lemma_holds_run(m, start, first, readings);
    lemma_holds_at_count(before.state, start, p0, r.count);
    lemma_run_keeps_count(m, first, readings);
    lemma_run_keeps_count(m, chunks, readings);
    items_are_completed_in_order(at, chunk, r.now);
    lemma_holds_before_finish(at, start, p0, chunk, r.now);
    let e = before_finish(at, chunk, r.now);
    lemma_balanced_before_finish(at, chunk, r.now);
    lemma_nothing_before_finish(at, chunk, r.now);
    lemma_chunk_parts(at, chunk, r.now);
    lemma_balanced_finish(e.state);
    let f = on_finish(e.state);
    assert forall|x: Item|
        #![trigger count(out, completes_item(x))]
        count(out, completes_item(x)) <= 1 && count(out, completes_item(x)) == count(
            before.events + out,
            adds_item(x),
        ) by {
        let s = run(m, chunks, readings);
        assert(s.events == before.events + out);
        assert(keeps_count(m, s, x));
        assert(open_count(s.state, x) == 0);
        assert(open_count(m, x) == 0) by {
            if earlier.len() == 0 {
                assert(open_calls(m, x) =~= Set::<u32>::empty());
            }
        }
        lemma_count_concat(before.events, out, completes_item(x));
        lemma_nothing_counts(before.events, x);
        lemma_count_concat(e.events, f.events, completes_item(x));
        lemma_nothing_counts(e.events, x);
        lemma_open_once(e.state, start, p0 + pieces_of(chunk), x);
        lemma_finish_adds_nothing(e.state, x);
    }
}

/// The end of an answer completes what is open.
proof fn lemma_finish_adds_nothing(m: StreamModel, x: Item)
    requires
        m.tool_calls.dom().finite(),
    ensures
        count(on_finish(m).events, adds_item(x)) == 0,
        count(on_finish(m).events, completes_item(x)) == open_count(m, x),
{
    lemma_balanced_finish(m);
    lemma_finish_in_order(m);
    let s = on_finish(m);
    lemma_no_additions(s.events, x);
    assert(keeps_count(m, s, x)) by {
        reveal(balanced);
    }
    assert(open_count(s.state, x) == 0);
}

proof fn lemma_no_additions(events: Seq<EventModel>, x: Item)
    requires
        adds_nothing(events),
    ensures
        count(events, adds_item(x)) == 0,
    decreases events.len(),
{
    if events.len() > 0 {
        let before = events.drop_last();
        assert forall|n: int| 0 <= n < before.len() implies !(
        #[trigger] before[n] is OutputItemAdded) by {
            assert(before[n] == events[n]);
        }
        lemma_no_additions(before, x);
        assert(!(events[events.len() - 1] is OutputItemAdded));
    }
}

} // verus!
