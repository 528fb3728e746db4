//! What holds of the tool calls in every run of a stream converter.

use crate::json::text_of;
use crate::text::string_view;
use crate::translate::chat::ChatChunk;
use crate::translate::chat::ChatToolCall;
use crate::translate::events::EventModel;
use crate::translate::index_laws::before_finish;
use crate::translate::index_laws::finishes;
use crate::translate::index_laws::lemma_chunk_parts;
use crate::translate::index_laws::pieces_of;
use crate::translate::index_laws::texts_of;
use crate::translate::stream_laws::gathered;
use crate::translate::stream_laws::item_is;
use crate::translate::stream_laws::lemma_gathered_concat;
use crate::translate::stream_laws::lemma_item_kinds;
use crate::translate::stream_laws::lemma_one_event;
use crate::translate::stream_laws::run;
use crate::translate::stream_model::add_arguments;
use crate::translate::stream_model::announce_call;
use crate::translate::stream_model::ascending;
use crate::translate::stream_model::at_count;
use crate::translate::stream_model::call_arguments;
use crate::translate::stream_model::call_item;
use crate::translate::stream_model::close_call;
use crate::translate::stream_model::close_calls;
use crate::translate::stream_model::close_message;
use crate::translate::stream_model::close_reasoning;
use crate::translate::stream_model::followed_by;
use crate::translate::stream_model::in_order;
use crate::translate::stream_model::initial;
use crate::translate::stream_model::label_call;
use crate::translate::stream_model::on_chunk;
use crate::translate::stream_model::on_completed;
use crate::translate::stream_model::on_created;
use crate::translate::stream_model::on_finish;
use crate::translate::stream_model::on_reasoning;
use crate::translate::stream_model::on_text;
use crate::translate::stream_model::on_tool_call;
use crate::translate::stream_model::on_tool_calls;
use crate::translate::stream_model::open_call;
use crate::translate::stream_model::with_usage;
use crate::translate::stream_model::Reading;
use crate::translate::stream_model::Step;
use crate::translate::stream_model::StreamModel;
use crate::translate::stream_model::ToolModel;
use vstd::prelude::*;

verus! {

/// The arguments that an event adds to the tool call at the output index `k`.
pub open spec fn piece_of(k: u32) -> spec_fn(EventModel) -> Seq<char> {
    |e: EventModel|
        match e {
            EventModel::FunctionCallArgumentsDelta { output_index, delta, .. } => if output_index
                == k {
                delta
            } else {
                Seq::empty()
            },
            _ => Seq::empty(),
        }
}

/// Whether an event completes a tool call.
pub open spec fn completes_call(e: EventModel) -> bool {
    match e {
        EventModel::OutputItemDone { item, .. } => item_is(item, "function_call"@),
        _ => false,
    }
}

/// The output index of an event that completes an item.
pub open spec fn done_at(e: EventModel) -> u32 {
    match e {
        EventModel::OutputItemDone { output_index, .. } => output_index,
        _ => 0,
    }
}

/// The arguments in the item that an event completes.
pub open spec fn done_arguments(e: EventModel) -> Option<Seq<char>> {
    match e {
        EventModel::OutputItemDone { item, .. } => text_of(item.get("arguments"@)),
        _ => None,
    }
}

/// How many calls a piece opens: one, where the call of its index is not open.
pub open spec fn opened_by(m: StreamModel, tc: ChatToolCall) -> nat {
    if m.tool_calls.contains_key(tc.index) {
        0
    } else {
        1
    }
}

/// How many calls pieces open, one after another.
pub open spec fn opened_by_calls(m: StreamModel, calls: Seq<ChatToolCall>, now: u64) -> nat
    decreases calls.len(),
{
    if calls.len() == 0 {
        0
    } else {
        let before = on_tool_calls(m, calls.drop_last(), now);
        opened_by_calls(m, calls.drop_last(), now) + opened_by(before.state, calls.last())
    }
}

/// How many calls a chunk opens.
pub open spec fn opened_by_chunk(m: StreamModel, chunk: ChatChunk, now: u64) -> nat {
    opened_by_calls(texts_of(m, chunk, now).state, pieces_of(chunk), now)
}

/// How many calls chunks open, those included that an earlier answer has closed.
pub open spec fn opened_by_run(
    m: StreamModel,
    chunks: Seq<ChatChunk>,
    readings: Seq<Reading>,
) -> nat
    decreases chunks.len(),
{
    if chunks.len() == 0 {
        0
    } else {
        let before = run(m, chunks.drop_last(), readings);
        let r = readings[chunks.len() - 1];
        opened_by_run(m, chunks.drop_last(), readings) + opened_by_chunk(
            at_count(before.state, r.count),
            chunks.last(),
            r.now,
        )
    }
}

/// Whether the output index `k` has been taken, where `n` calls have been opened:
/// they take 1, 2 and so on, and the largest index is followed by 0.
pub open spec fn taken(n: nat, k: u32) -> bool {
    (k + 0xffff_ffff) % 0x1_0000_0000 < n
}

/// Whether the open calls of a state and the events before it agree, where `n`
/// calls have been opened: an open call holds the arguments that were shown for
/// it, a completed one was completed once, with the arguments that were shown for
/// it, and nothing was shown for an output index that is still free.
#[verifier::opaque]
pub open spec fn accounted(m: StreamModel, n: nat, events: Seq<EventModel>) -> bool {
    &&& m.next_tool_output_index == (1 + n) % 0x1_0000_0000
    &&& m.tool_calls.dom().finite()
    &&& forall|i: u32| #[trigger]
        m.tool_calls.contains_key(i) ==> taken(n, m.tool_calls[i].output_index)
            && m.tool_calls[i].arguments == gathered(
            events,
            piece_of(m.tool_calls[i].output_index),
        )
    &&& forall|i: u32, j: u32|
        (#[trigger] m.tool_calls.contains_key(i) && #[trigger] m.tool_calls.contains_key(j) && i
            != j) ==> m.tool_calls[i].output_index != m.tool_calls[j].output_index
    &&& forall|k: u32| !taken(n, k) ==> #[trigger] gathered(events, piece_of(k)).len() == 0
    &&& forall|p: int|
        0 <= p < events.len() && completes_call(#[trigger] events[p]) ==> taken(
            n,
            done_at(events[p]),
        ) && done_arguments(events[p]) == Some(
            gathered(events, piece_of(done_at(events[p]))),
        )
    &&& forall|p: int, i: u32|
        (0 <= p < events.len() && completes_call(#[trigger] events[p])
            && #[trigger] m.tool_calls.contains_key(i)) ==> m.tool_calls[i].output_index
            != done_at(events[p])
    &&& forall|p: int, q: int|
        (0 <= p < q < events.len() && completes_call(#[trigger] events[p]) && completes_call(
            #[trigger] events[q],
        )) ==> done_at(events[p]) != done_at(events[q])
}

/// Whether events neither show arguments nor complete a call.
pub open spec fn quiet(events: Seq<EventModel>) -> bool {
    forall|n: int|
        0 <= n < events.len() ==> !(#[trigger] events[n] is FunctionCallArgumentsDelta)
            && !completes_call(events[n])
}

proof fn lemma_quiet_shows_nothing(events: Seq<EventModel>, k: u32)
    requires
        quiet(events),
    ensures
        gathered(events, piece_of(k)).len() == 0,
    decreases events.len(),
{
    if events.len() > 0 {
        let before = events.drop_last();
        assert forall|n: int| 0 <= n < before.len() implies !(
        #[trigger] before[n] is FunctionCallArgumentsDelta) && !completes_call(before[n]) by {
            assert(before[n] == events[n]);
        }
        lemma_quiet_shows_nothing(before, k);
        assert(!(events[events.len() - 1] is FunctionCallArgumentsDelta));
    }
}

/// A step that shows no arguments and keeps the output index and the arguments of
/// each open call.
proof fn lemma_accounted_quiet(
    m: StreamModel,
    used: nat,
    events: Seq<EventModel>,
    to: StreamModel,
    more: Seq<EventModel>,
)
    requires
        accounted(m, used, events),
        quiet(more),
        to.next_tool_output_index == m.next_tool_output_index,
        to.tool_calls.dom() == m.tool_calls.dom(),
        forall|i: u32| #[trigger]
            m.tool_calls.contains_key(i) ==> to.tool_calls[i].output_index
                == m.tool_calls[i].output_index && to.tool_calls[i].arguments
                == m.tool_calls[i].arguments,
    ensures
        accounted(to, used, events + more),
{
    reveal(accounted);
    let all = events + more;
    assert forall|k: u32| #[trigger]
        gathered(all, piece_of(k)) == gathered(events, piece_of(k)) by {
        lemma_gathered_concat(events, more, piece_of(k));
        lemma_quiet_shows_nothing(more, k);
        assert(gathered(all, piece_of(k)) =~= gathered(events, piece_of(k)));
    }
    assert forall|i: u32| #[trigger] to.tool_calls.contains_key(i) implies
        m.tool_calls.contains_key(i) by {
        assert(to.tool_calls.dom().contains(i));
    }
    assert forall|n: int| 0 <= n < all.len() && completes_call(#[trigger] all[n]) implies n
        < events.len() && all[n] == events[n] by {
        if n >= events.len() {
            assert(all[n] == more[n - events.len()]);
        }
    }
}

/// The opening of a call takes an output index that is still free.
proof fn lemma_accounted_open(
    m: StreamModel,
    used: nat,
    events: Seq<EventModel>,
    tc: ChatToolCall,
    now: u64,
)
    requires
        accounted(m, used, events),
        used + opened_by(m, tc) <= 0x1_0000_0000,
    ensures
        accounted(open_call(m, tc, now), used + opened_by(m, tc), events),
        open_call(m, tc, now).tool_calls.contains_key(tc.index),
{
    reveal(accounted);
    let to = open_call(m, tc, now);
    if !m.tool_calls.contains_key(tc.index) {
        let k = m.next_tool_output_index;
        assert(gathered(events, piece_of(k)).len() == 0);
        assert(to.tool_calls[tc.index].arguments =~= gathered(events, piece_of(k)));
        assert forall|i: u32| #[trigger] to.tool_calls.contains_key(i) implies i == tc.index
            || (m.tool_calls.contains_key(i) && to.tool_calls[i] == m.tool_calls[i]) by {}
    }
}

proof fn lemma_accounted_arguments(
    m: StreamModel,
    used: nat,
    events: Seq<EventModel>,
    index: u32,
    arguments: Option<Seq<char>>,
)
    requires
        accounted(m, used, events),
        m.tool_calls.contains_key(index),
    ensures
        ({
            let s = add_arguments(m, index, arguments);
            accounted(s.state, used, events + s.events)
        }),
{
    reveal(accounted);
    let s = add_arguments(m, index, arguments);
    let all = events + s.events;
    if s.events.len() == 0 {
        assert(all =~= events);
    } else {
        let t = m.tool_calls[index];
        lemma_one_event(s.events[0]);
        assert forall|k: u32| #[trigger]
            gathered(all, piece_of(k)) == gathered(events, piece_of(k)) + if k
            == t.output_index {
            arguments->0
        } else {
            Seq::empty()
        } by {
            lemma_gathered_concat(events, s.events, piece_of(k));
        }
        assert forall|k: u32| k != t.output_index implies #[trigger] gathered(all, piece_of(k))
            == gathered(events, piece_of(k)) by {
            assert(gathered(events, piece_of(k)) + Seq::<char>::empty() =~= gathered(
                events,
                piece_of(k),
            ));
        }
        assert forall|i: u32| #[trigger] s.state.tool_calls.contains_key(i) implies
            m.tool_calls.contains_key(i) && s.state.tool_calls[i].output_index
            == m.tool_calls[i].output_index && (i != index ==> s.state.tool_calls[i]
            == m.tool_calls[i]) by {}
        assert forall|n: int| 0 <= n < all.len() && completes_call(#[trigger] all[n]) implies n
            < events.len() && all[n] == events[n] by {
            if n >= events.len() {
                assert(all[n] == s.events[0]);
            }
        }
        assert(s.state.tool_calls.dom() =~= m.tool_calls.dom());
    }
}

proof fn lemma_accounted_call(
    m: StreamModel,
    used: nat,
    events: Seq<EventModel>,
    tc: ChatToolCall,
    now: u64,
)
    requires
        accounted(m, used, events),
        used + opened_by(m, tc) <= 0x1_0000_0000,
    ensures
        ({
            let s = on_tool_call(m, tc, now);
            accounted(s.state, used + opened_by(m, tc), events + s.events)
        }),
{
    let opened = open_call(m, tc, now);
    lemma_accounted_open(m, used, events, tc, now);
    let more = used + opened_by(m, tc);
    let l = label_call(m, tc, now);
    assert(l.tool_calls.dom() =~= opened.tool_calls.dom());
    assert(events + Seq::<EventModel>::empty() =~= events);
    lemma_accounted_quiet(opened, more, events, l, Seq::empty());
    let announced = announce_call(l, tc.index);
    assert(announced.state.tool_calls.dom() =~= l.tool_calls.dom());
    lemma_accounted_quiet(l, more, events, announced.state, announced.events);
    let seen = events + announced.events;
    let added = add_arguments(announced.state, tc.index, call_arguments(tc));
    assert(announced.state.tool_calls.dom().contains(tc.index));
    lemma_accounted_arguments(announced.state, more, seen, tc.index, call_arguments(tc));
    assert(seen + added.events =~= events + on_tool_call(m, tc, now).events);
}

proof fn lemma_accounted_calls(
    m: StreamModel,
    used: nat,
    events: Seq<EventModel>,
    calls: Seq<ChatToolCall>,
    now: u64,
)
    requires
        accounted(m, used, events),
        used + opened_by_calls(m, calls, now) <= 0x1_0000_0000,
    ensures
        ({
            let s = on_tool_calls(m, calls, now);
            accounted(s.state, used + opened_by_calls(m, calls, now), events + s.events)
        }),
    decreases calls.len(),
{
    if calls.len() == 0 {
        assert(events + Seq::<EventModel>::empty() =~= events);
    } else {
        let before = on_tool_calls(m, calls.drop_last(), now);
        let more = used + opened_by_calls(m, calls.drop_last(), now);
        lemma_accounted_calls(m, used, events, calls.drop_last(), now);
        let seen = events + before.events;
        lemma_accounted_call(before.state, more, seen, calls.last(), now);
        assert(seen + on_tool_call(before.state, calls.last(), now).events =~= events
            + on_tool_calls(m, calls, now).events);
    }
}

proof fn lemma_accounted_close(m: StreamModel, used: nat, events: Seq<EventModel>, index: u32)
    requires
        accounted(m, used, events),
        m.tool_calls.contains_key(index),
    ensures
        ({
            let s = close_call(m, index);
            accounted(s.state, used, events + s.events)
        }),
{
    reveal(accounted);
    let s = close_call(m, index);
    let all = events + s.events;
    let t = m.tool_calls[index];
    assert forall|i: u32| #[trigger] s.state.tool_calls.contains_key(i) implies i != index
        && m.tool_calls.contains_key(i) && s.state.tool_calls[i] == m.tool_calls[i] by {}
    if s.events.len() == 0 {
        assert(all =~= events);
    } else {
        let e = s.events[0];
        lemma_item_kinds();
        assert(completes_call(e));
        assert(done_at(e) == t.output_index);
        assert(done_arguments(e) == Some(t.arguments));
        lemma_one_event(e);
        assert forall|k: u32| #[trigger]
            gathered(all, piece_of(k)) == gathered(events, piece_of(k)) by {
            lemma_gathered_concat(events, s.events, piece_of(k));
            assert(gathered(events, piece_of(k)) + Seq::<char>::empty() =~= gathered(
                events,
                piece_of(k),
            ));
        }
        assert forall|n: int| 0 <= n < all.len() implies #[trigger] all[n] == (if n
            < events.len() {
            events[n]
        } else {
            e
        }) by {}
    }
}

/// A set of numbers in order, with one more.
proof fn lemma_insert_in_order(q: Seq<u32>, k: u32) -> (r: Seq<u32>)
    requires
        ascending(q),
        !q.contains(k),
    ensures
        ascending(r),
        r.to_set() == q.to_set().insert(k),
    decreases q.len(),
{
    if q.len() == 0 || q.last() < k {
        let r = q.push(k);
        q.lemma_push_to_set_commute(k);
        assert forall|i: int, j: int| 0 <= i < j < r.len() implies r[i] < r[j] by {
            if j == q.len() && i < q.len() - 1 {
                assert(q[i] < q.last());
            }
        }
        r
    } else {
        let x = q.last();
        let before = q.drop_last();
        assert(q.contains(x));
        assert forall|i: int| 0 <= i < before.len() implies #[trigger] before[i] != k by {
            assert(q[i] == before[i]);
            assert(q.contains(q[i]));
        }
        let p = lemma_insert_in_order(before, k);
        let r = p.push(x);
        p.lemma_push_to_set_commute(x);
        before.lemma_push_to_set_commute(x);
        assert(before.push(x) =~= q);
        assert(r.to_set() =~= q.to_set().insert(k));
        assert forall|i: int, j: int| 0 <= i < j < r.len() implies r[i] < r[j] by {
            if j == p.len() {
                assert(p.to_set().contains(p[i]));
                assert(before.to_set().insert(k).contains(p[i]));
                if p[i] != k {
                    let n = choose|n: int| 0 <= n < before.len() && before[n] == p[i];
                    assert(q[n] < q.last());
                }
            }
        }
        r
    }
}

proof fn lemma_order_exists(s: Set<u32>) -> (q: Seq<u32>)
    requires
        s.finite(),
    ensures
        ascending(q),
        q.to_set() == s,
    decreases s.len(),
{
    if s.len() == 0 {
        let q = Seq::<u32>::empty();
        assert(q.to_set() =~= s);
        q
    } else {
        let k = s.choose();
        let p = lemma_order_exists(s.remove(k));
        assert(!p.contains(k)) by {
            if p.contains(k) {
                assert(p.to_set().contains(k));
            }
        }
        let q = lemma_insert_in_order(p, k);
        assert(q.to_set() =~= s);
        q
    }
}

/// The elements of a finite set can be put in order.
pub proof fn in_order_is_ascending(s: Set<u32>)
    requires
        s.finite(),
    ensures
        ascending(in_order(s)),
        in_order(s).to_set() == s,
{
    let q = lemma_order_exists(s);
    assert(ascending(q) && q.to_set() == s);
}

proof fn lemma_accounted_close_all(
    m: StreamModel,
    used: nat,
    events: Seq<EventModel>,
    indices: Seq<u32>,
)
    requires
        accounted(m, used, events),
        ascending(indices),
        forall|i: int| 0 <= i < indices.len() ==> m.tool_calls.contains_key(#[trigger] indices[i]),
    ensures
        ({
            let s = close_calls(m, indices);
            &&& accounted(s.state, used, events + s.events)
            &&& s.state.tool_calls.dom() == m.tool_calls.dom().difference(indices.to_set())
        }),
    decreases indices.len(),
{
    let s = close_calls(m, indices);
    if indices.len() == 0 {
        assert(events + Seq::<EventModel>::empty() =~= events);
        assert(s.state.tool_calls.dom() =~= m.tool_calls.dom().difference(indices.to_set()));
    } else {
        let first = indices.drop_last();
        let x = indices.last();
        let before = close_calls(m, first);
        assert forall|i: int| 0 <= i < first.len() implies m.tool_calls.contains_key(
            #[trigger] first[i],
        ) by {
            assert(first[i] == indices[i]);
        }
        lemma_accounted_close_all(m, used, events, first);
        assert(!first.to_set().contains(x)) by {
            if first.contains(x) {
                let i = choose|i: int| 0 <= i < first.len() && first[i] == x;
                assert(indices[i] < indices[indices.len() - 1]);
            }
        }
        assert(m.tool_calls.contains_key(indices[indices.len() - 1]));
        assert(before.state.tool_calls.dom().contains(x));
        let seen = events + before.events;
        lemma_accounted_close(before.state, used, seen, x);
        assert(seen + close_call(before.state, x).events =~= events + s.events);
        first.lemma_push_to_set_commute(x);
        assert(first.push(x) =~= indices);
        assert(s.state.tool_calls.dom() =~= m.tool_calls.dom().difference(indices.to_set()));
    }
}

proof fn lemma_accounted_finish(m: StreamModel, used: nat, events: Seq<EventModel>)
    requires
        accounted(m, used, events),
    ensures
        ({
            let s = on_finish(m);
            &&& accounted(s.state, used, events + s.events)
            &&& s.state.tool_calls.dom() == Set::<u32>::empty()
        }),
{
    lemma_item_kinds();
    let a = close_reasoning(m);
    lemma_accounted_quiet(m, used, events, a.state, a.events);
    let seen_a = events + a.events;
    let cm = close_message(a.state);
    lemma_accounted_quiet(a.state, used, seen_a, cm.state, cm.events);
    let b = followed_by(a, cm);
    let seen_b = seen_a + cm.events;
    let order = in_order(b.state.tool_calls.dom());
    assert(b.state.tool_calls.dom().finite()) by {
        reveal(accounted);
    }
    in_order_is_ascending(b.state.tool_calls.dom());
    assert forall|i: int| 0 <= i < order.len() implies b.state.tool_calls.contains_key(
        #[trigger] order[i],
    ) by {
        assert(order.to_set().contains(order[i]));
    }
    lemma_accounted_close_all(b.state, used, seen_b, order);
    let calls = close_calls(b.state, order);
    let seen_c = seen_b + calls.events;
    let c = followed_by(b, calls);
    let done = on_completed(c.state);
    lemma_accounted_quiet(c.state, used, seen_c, done.state, done.events);
    assert(seen_c + done.events =~= events + on_finish(m).events);
    assert(done.state.tool_calls.dom() =~= Set::<u32>::empty());
}

proof fn lemma_accounted_initial(model: Seq<char>, count_before: u64, now: u64, secs: u64)
    ensures
        accounted(initial(model, count_before, now, secs), 0, Seq::empty()),
{
    reveal(accounted);
    assert forall|k: u32| #[trigger]
        gathered(Seq::<EventModel>::empty(), piece_of(k)).len() == 0 by {}
}

proof fn lemma_accounted_texts(
    m: StreamModel,
    used: nat,
    events: Seq<EventModel>,
    text: Option<Seq<char>>,
    now: u64,
)
    requires
        accounted(m, used, events),
    ensures
        ({
            let rs = on_reasoning(m, text, now);
            let tx = on_text(m, text, now);
            &&& accounted(rs.state, used, events + rs.events)
            &&& accounted(tx.state, used, events + tx.events)
        }),
{
    let rs = on_reasoning(m, text, now);
    lemma_accounted_quiet(m, used, events, rs.state, rs.events);
    let tx = on_text(m, text, now);
    lemma_accounted_quiet(m, used, events, tx.state, tx.events);
}

/// What a chunk does before it ends the answer.
proof fn lemma_accounted_before_finish(
    m: StreamModel,
    used: nat,
    events: Seq<EventModel>,
    chunk: ChatChunk,
    now: u64,
)
    requires
        accounted(m, used, events),
        used + opened_by_chunk(m, chunk, now) <= 0x1_0000_0000,
    ensures
        ({
            let e = before_finish(m, chunk, now);
            accounted(e.state, used + opened_by_chunk(m, chunk, now), events + e.events)
        }),
{
    let a = on_created(m);
    let b = Step { state: with_usage(a.state, chunk.usage), ..a };
    lemma_accounted_quiet(m, used, events, b.state, b.events);
    let seen_b = events + b.events;
    let d = texts_of(m, chunk, now);
    if chunk.choices@.len() > 0 {
        let choice = chunk.choices@[0];
        let rs = on_reasoning(b.state, string_view(choice.delta.reasoning_content), now);
        lemma_accounted_texts(
            b.state,
            used,
            seen_b,
            string_view(choice.delta.reasoning_content),
            now,
        );
        let c = followed_by(b, rs);
        let seen_c = seen_b + rs.events;
        let tx = on_text(c.state, string_view(choice.delta.content), now);
        lemma_accounted_texts(c.state, used, seen_c, string_view(choice.delta.content), now);
        assert(seen_c + tx.events =~= events + d.events);
    }
    let seen_d = events + d.events;
    let tcs = on_tool_calls(d.state, pieces_of(chunk), now);
    lemma_accounted_calls(d.state, used, seen_d, pieces_of(chunk), now);
    assert(seen_d + tcs.events =~= events + before_finish(m, chunk, now).events);
}

proof fn lemma_accounted_chunk(
    m: StreamModel,
    used: nat,
    events: Seq<EventModel>,
    chunk: ChatChunk,
    now: u64,
)
    requires
        accounted(m, used, events),
        used + opened_by_chunk(m, chunk, now) <= 0x1_0000_0000,
    ensures
        ({
            let s = on_chunk(m, chunk, now);
            accounted(s.state, used + opened_by_chunk(m, chunk, now), events + s.events)
        }),
{
    let e = before_finish(m, chunk, now);
    lemma_accounted_before_finish(m, used, events, chunk, now);
    lemma_chunk_parts(m, chunk, now);
    if finishes(chunk) {
        lemma_accounted_finish(
            e.state,
            used + opened_by_chunk(m, chunk, now),
            events + e.events,
        );
        assert((events + e.events) + on_finish(e.state).events =~= events + followed_by(
            e,
            on_finish(e.state),
        ).events);
    }
}

proof fn lemma_accounted_run(m: StreamModel, chunks: Seq<ChatChunk>, readings: Seq<Reading>)
    requires
        accounted(m, 0, Seq::empty()),
        opened_by_run(m, chunks, readings) <= 0x1_0000_0000,
    ensures
        ({
            let s = run(m, chunks, readings);
            accounted(s.state, opened_by_run(m, chunks, readings), s.events)
        }),
    decreases chunks.len(),
{
    if chunks.len() > 0 {
        let before = run(m, chunks.drop_last(), readings);
        let used = opened_by_run(m, chunks.drop_last(), readings);
        lemma_accounted_run(m, chunks.drop_last(), readings);
        let r = readings[chunks.len() - 1];
        let at = at_count(before.state, r.count);
        assert(accounted(at, used, before.events)) by {
            reveal(accounted);
        }
        lemma_accounted_chunk(at, used, before.events, chunks.last(), r.now);
    }
}

/// The tool calls of a stream: one that is completed is completed once, and the
/// arguments that it is completed with are the pieces that were shown for it, put
/// together; one that is open holds the pieces that were shown for it so far.
/// This holds as long as no more calls are opened than there are output indices.
pub proof fn completed_calls_hold_the_pieces_shown(
    model: Seq<char>,
    count_before: u64,
    now: u64,
    secs: u64,
    chunks: Seq<ChatChunk>,
    readings: Seq<Reading>,
)
    requires
        opened_by_run(initial(model, count_before, now, secs), chunks, readings)
            <= 0x1_0000_0000,
    ensures
        ({
            let m = initial(model, count_before, now, secs);
            let s = run(m, chunks, readings);
            accounted(s.state, opened_by_run(m, chunks, readings), s.events)
        }),
{
    let m = initial(model, count_before, now, secs);
    lemma_accounted_initial(model, count_before, now, secs);
    lemma_accounted_run(m, chunks, readings);
}

/// The event that completes an open call with the number `n`.
pub open spec fn completion_of(t: ToolModel, n: u64) -> EventModel {
    EventModel::OutputItemDone {
        sequence_number: n,
        output_index: t.output_index,
        item: call_item(t.item_id, t.call_id, t.name, t.arguments, "completed"@),
    }
}

/// The indices of the calls that have been announced.
pub open spec fn announced_among(m: StreamModel, indices: Seq<u32>) -> Seq<u32> {
    indices.filter(|i: u32| m.tool_calls[i].added)
}

pub proof fn lemma_completed_in_order(m: StreamModel, indices: Seq<u32>)
    requires
        indices.no_duplicates(),
    ensures
        ({
            let s = close_calls(m, indices);
            let named = announced_among(m, indices);
            &&& s.events.len() == named.len()
            &&& forall|j: int|
                0 <= j < named.len() ==> #[trigger] s.events[j] == completion_of(
                    m.tool_calls[named[j]],
                    s.events[j].number(),
                )
            &&& forall|i: u32|
                !indices.contains(i) ==> #[trigger] s.state.tool_calls[i] == m.tool_calls[i]
        }),
    decreases indices.len(),
{
    reveal(Seq::filter);
    if indices.len() > 0 {
        let first = indices.drop_last();
        let x = indices.last();
        let before = close_calls(m, first);
        lemma_completed_in_order(m, first);
        assert(!first.contains(x));
        assert forall|i: u32| !indices.contains(i) implies !first.contains(i) && i != x by {
            if first.contains(i) {
                let n = choose|n: int| 0 <= n < first.len() && first[n] == i;
                assert(indices[n] == i);
            }
            assert(indices.contains(x));
        }
        let s = close_calls(m, indices);
        let earlier = announced_among(m, first);
        let named = announced_among(m, indices);
        assert(before.state.tool_calls[x] == m.tool_calls[x]);
        assert forall|j: int| 0 <= j < named.len() implies #[trigger] s.events[j]
            == completion_of(m.tool_calls[named[j]], s.events[j].number()) by {
            if j < earlier.len() {
                assert(s.events[j] == before.events[j]);
                assert(named[j] == earlier[j]);
            } else {
                assert(s.events[j] == close_call(before.state, x).events[0]);
                assert(named[j] == x);
            }
        }
    }
}

/// When an answer ends, the calls that have been announced are completed in the
/// order of the indices that the upstream gave them, each with what it has then;
/// a call that never got a name is dropped.
pub proof fn calls_are_completed_in_order(m: StreamModel)
    requires
        m.tool_calls.dom().finite(),
    ensures
        ({
            let order = in_order(m.tool_calls.dom());
            let named = announced_among(m, order);
            let events = close_calls(m, order).events;
            &&& ascending(order)
            &&& order.to_set() == m.tool_calls.dom()
            &&& events.len() == named.len()
            &&& forall|j: int|
                0 <= j < named.len() ==> #[trigger] events[j] == completion_of(
                    m.tool_calls[named[j]],
                    events[j].number(),
                )
        }),
{
    let order = in_order(m.tool_calls.dom());
    in_order_is_ascending(m.tool_calls.dom());
    assert(order.no_duplicates());
    lemma_completed_in_order(m, order);
}

} // verus!
