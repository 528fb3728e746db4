//! What holds of every run of a stream converter.

use crate::json::text_of;
use crate::json::Json;
use crate::text::string_view;
use crate::translate::chat::ChatChunk;
use crate::translate::chat::ChatToolCall;
use crate::translate::events::EventModel;
use crate::translate::events::UsageSummary;
use crate::translate::stream_model::add_arguments;
use crate::translate::stream_model::add_reasoning;
use crate::translate::stream_model::add_text;
use crate::translate::stream_model::announce_call;
use crate::translate::stream_model::at_count;
use crate::translate::stream_model::call_arguments;
use crate::translate::stream_model::close_call;
use crate::translate::stream_model::close_calls;
use crate::translate::stream_model::close_message;
use crate::translate::stream_model::close_reasoning;
use crate::translate::stream_model::followed_by;
use crate::translate::stream_model::in_order;
use crate::translate::stream_model::initial;
use crate::translate::stream_model::label_call;
use crate::translate::stream_model::message_done_item;
use crate::translate::stream_model::no_step;
use crate::translate::stream_model::on_chunk;
use crate::translate::stream_model::on_chunk_at;
use crate::translate::stream_model::on_completed;
use crate::translate::stream_model::on_created;
use crate::translate::stream_model::on_end;
use crate::translate::stream_model::on_failed;
use crate::translate::stream_model::on_finish;
use crate::translate::stream_model::on_reasoning;
use crate::translate::stream_model::on_text;
use crate::translate::stream_model::on_tool_call;
use crate::translate::stream_model::on_tool_calls;
use crate::translate::stream_model::open_message;
use crate::translate::stream_model::open_reasoning;
use crate::translate::stream_model::reasoning_done_item;
use crate::translate::stream_model::text_part;
use crate::translate::stream_model::with_usage;
use crate::translate::stream_model::Reading;
use crate::translate::stream_model::Step;
use crate::translate::stream_model::StreamModel;
use vstd::prelude::*;

verus! {

/// What a converter does with chunks, one after another, each read at its reading.
pub open spec fn run(m: StreamModel, chunks: Seq<ChatChunk>, readings: Seq<Reading>) -> Step
    decreases chunks.len(),
{
    if chunks.len() == 0 {
        no_step(m)
    } else {
        let before = run(m, chunks.drop_last(), readings);
        followed_by(before, on_chunk_at(before.state, chunks.last(), readings[chunks.len() - 1]))
    }
}

/// What a converter does with a whole stream: it announces the response, takes
/// the chunks, and ends.
pub open spec fn whole_run(m: StreamModel, chunks: Seq<ChatChunk>, readings: Seq<Reading>) -> Step {
    let begun = on_created(m);
    let chunked = followed_by(begun, run(begun.state, chunks, readings));
    followed_by(chunked, on_end(chunked.state))
}

/// How many events are of a kind.
pub open spec fn count(events: Seq<EventModel>, kind: spec_fn(EventModel) -> bool) -> nat
    decreases events.len(),
{
    if events.len() == 0 {
        0
    } else {
        count(events.drop_last(), kind) + if kind(events.last()) {
            1nat
        } else {
            0nat
        }
    }
}

/// What `part` takes from each event, one after another.
pub open spec fn gathered(
    events: Seq<EventModel>,
    part: spec_fn(EventModel) -> Seq<char>,
) -> Seq<char>
    decreases events.len(),
{
    if events.len() == 0 {
        Seq::empty()
    } else {
        gathered(events.drop_last(), part) + part(events.last())
    }
}

pub proof fn lemma_count_concat(
    a: Seq<EventModel>,
    b: Seq<EventModel>,
    kind: spec_fn(EventModel) -> bool,
)
    ensures
        count(a + b, kind) == count(a, kind) + count(b, kind),
    decreases b.len(),
{
    if b.len() == 0 {
        assert(a + b =~= a);
    } else {
        assert((a + b).drop_last() =~= a + b.drop_last());
        lemma_count_concat(a, b.drop_last(), kind);
    }
}

pub proof fn lemma_gathered_concat(
    a: Seq<EventModel>,
    b: Seq<EventModel>,
    part: spec_fn(EventModel) -> Seq<char>,
)
    ensures
        gathered(a + b, part) == gathered(a, part) + gathered(b, part),
    decreases b.len(),
{
    if b.len() == 0 {
        assert(a + b =~= a);
        assert(gathered(a, part) + gathered(b, part) =~= gathered(a, part));
    } else {
        assert((a + b).drop_last() =~= a + b.drop_last());
        lemma_gathered_concat(a, b.drop_last(), part);
        assert(gathered(a + b, part) =~= gathered(a, part) + gathered(b, part));
    }
}

/// An event that announces the response.
pub open spec fn is_created() -> spec_fn(EventModel) -> bool {
    |e: EventModel| e is Created
}

/// An event that completes the response.
pub open spec fn is_completed() -> spec_fn(EventModel) -> bool {
    |e: EventModel| e is Completed
}

/// The text that an event adds to a message.
pub open spec fn text_delta() -> spec_fn(EventModel) -> Seq<char> {
    |e: EventModel|
        match e {
            EventModel::OutputTextDelta { delta, .. } => delta,
            _ => Seq::empty(),
        }
}

/// The text that an event adds to a reasoning.
pub open spec fn reasoning_delta() -> spec_fn(EventModel) -> Seq<char> {
    |e: EventModel|
        match e {
            EventModel::ReasoningTextDelta { delta, .. } => delta,
            _ => Seq::empty(),
        }
}

/// The text of an item with one piece of content.
pub open spec fn item_text(item: Json) -> Seq<char> {
    match item.get("content"@) {
        Some(Json::Array(parts)) => match text_of(parts[0].get("text"@)) {
            Some(t) => t,
            None => Seq::empty(),
        },
        _ => Seq::empty(),
    }
}

/// Whether an item is of the type `kind`.
pub open spec fn item_is(item: Json, kind: Seq<char>) -> bool {
    text_of(item.get("type"@)) == Some(kind)
}

/// The text of the item of the type `kind` that an event completes.
pub open spec fn done_text(kind: Seq<char>) -> spec_fn(EventModel) -> Seq<char> {
    |e: EventModel|
        match e {
            EventModel::OutputItemDone { item, .. } => if item_is(item, kind) {
                item_text(item)
            } else {
                Seq::empty()
            },
            _ => Seq::empty(),
        }
}

/// The number of an event that comes `i` places after one with the number `n`.
pub open spec fn number_after(n: u64, i: nat) -> u64 {
    ((n + i) % 0x1_0000_0000_0000_0000) as u64
}

/// Whether the events of a step are numbered in a row from `n` on, and the state
/// goes on with the number after the last.
pub open spec fn numbered(n: u64, s: Step) -> bool {
    &&& forall|i: int|
        0 <= i < s.events.len() ==> (#[trigger] s.events[i]).number() == number_after(n, i as nat)
    &&& s.state.seq == number_after(n, s.events.len())
}

/// Whether a buffer of text belongs to an item that is open.
pub open spec fn buffers_belong(m: StreamModel) -> bool {
    &&& m.message_item_id is None ==> m.message_text.len() == 0
    &&& m.reasoning_item_id is None ==> m.reasoning_text.len() == 0
}

/// 1 for true, 0 for false.
pub open spec fn as_number(b: bool) -> nat {
    if b {
        1
    } else {
        0
    }
}

/// Whether the events of a step carry the names of the response that `m` is for.
pub open spec fn named(m: StreamModel, events: Seq<EventModel>) -> bool {
    forall|i: int|
        0 <= i < events.len() ==> match #[trigger] events[i] {
            EventModel::Created { response, .. } => response.model == m.model && response.id
                == m.response_id && response.created_at == m.created_at,
            EventModel::Completed { response, .. } => response.model == m.model && response.id
                == m.response_id && response.created_at == m.created_at,
            _ => true,
        }
}

/// What every step of a converter keeps.
pub open spec fn lawful(m: StreamModel, s: Step) -> bool {
    &&& numbered(m.seq, s)
    &&& named(m, s.events)
    &&& s.state.model == m.model
    &&& s.state.response_id == m.response_id
    &&& s.state.created_at == m.created_at
    &&& as_number(m.created_emitted) + count(s.events, is_created()) == as_number(
        s.state.created_emitted,
    )
    &&& as_number(m.completed_emitted) + count(s.events, is_completed()) == as_number(
        s.state.completed_emitted,
    )
    &&& buffers_belong(m) ==> {
        &&& buffers_belong(s.state)
        &&& m.message_text + gathered(s.events, text_delta()) == gathered(
            s.events,
            done_text("message"@),
        ) + s.state.message_text
        &&& m.reasoning_text + gathered(s.events, reasoning_delta()) == gathered(
            s.events,
            done_text("reasoning"@),
        ) + s.state.reasoning_text
    }
}

pub proof fn lemma_number_after(n: u64, i: nat, j: nat)
    ensures
        number_after(number_after(n, i), j) == number_after(n, i + j),
{
}

proof fn lemma_lawful_followed(m: StreamModel, a: Step, b: Step)
    requires
        lawful(m, a),
        lawful(a.state, b),
    ensures
        lawful(m, followed_by(a, b)),
{
    let s = followed_by(a, b);
    lemma_count_concat(a.events, b.events, is_created());
    lemma_count_concat(a.events, b.events, is_completed());
    assert forall|i: int| 0 <= i < s.events.len() implies (#[trigger] s.events[i]).number()
        == number_after(m.seq, i as nat) by {
        if i < a.events.len() {
            assert(s.events[i] == a.events[i]);
        } else {
            let j = i - a.events.len();
            assert(s.events[i] == b.events[j]);
            lemma_number_after(m.seq, a.events.len(), j as nat);
        }
    }
    lemma_number_after(m.seq, a.events.len(), b.events.len());
    assert forall|i: int| 0 <= i < s.events.len() implies match #[trigger] s.events[i] {
        EventModel::Created { response, .. } => response.model == m.model && response.id
            == m.response_id && response.created_at == m.created_at,
        EventModel::Completed { response, .. } => response.model == m.model && response.id
            == m.response_id && response.created_at == m.created_at,
        _ => true,
    } by {
        if i < a.events.len() {
            assert(s.events[i] == a.events[i]);
        } else {
            assert(s.events[i] == b.events[i - a.events.len()]);
        }
    }
    if buffers_belong(m) {
        lemma_gathered_concat(a.events, b.events, text_delta());
        lemma_gathered_concat(a.events, b.events, reasoning_delta());
        lemma_gathered_concat(a.events, b.events, done_text("message"@));
        lemma_gathered_concat(a.events, b.events, done_text("reasoning"@));
        lemma_shift(
            m.message_text,
            gathered(a.events, text_delta()),
            gathered(a.events, done_text("message"@)),
            a.state.message_text,
            gathered(b.events, text_delta()),
            gathered(b.events, done_text("message"@)),
            b.state.message_text,
        );
        lemma_shift(
            m.reasoning_text,
            gathered(a.events, reasoning_delta()),
            gathered(a.events, done_text("reasoning"@)),
            a.state.reasoning_text,
            gathered(b.events, reasoning_delta()),
            gathered(b.events, done_text("reasoning"@)),
            b.state.reasoning_text,
        );
    }
}

/// Texts that pass through a buffer in two steps.
proof fn lemma_shift(
    x: Seq<char>,
    in1: Seq<char>,
    out1: Seq<char>,
    y: Seq<char>,
    in2: Seq<char>,
    out2: Seq<char>,
    z: Seq<char>,
)
    requires
        x + in1 == out1 + y,
        y + in2 == out2 + z,
    ensures
        x + (in1 + in2) == (out1 + out2) + z,
{
    assert(x + (in1 + in2) =~= (x + in1) + in2);
    assert((out1 + y) + in2 =~= out1 + (y + in2));
    assert(out1 + (out2 + z) =~= (out1 + out2) + z);
}

proof fn lemma_lawful_none(m: StreamModel, to: StreamModel)
    requires
        to.seq == m.seq,
        to.model == m.model,
        to.response_id == m.response_id,
        to.created_at == m.created_at,
        to.created_emitted == m.created_emitted,
        to.completed_emitted == m.completed_emitted,
        to.message_item_id == m.message_item_id,
        to.message_text == m.message_text,
        to.reasoning_item_id == m.reasoning_item_id,
        to.reasoning_text == m.reasoning_text,
    ensures
        lawful(m, no_step(to)),
{
    assert(m.message_text + Seq::<char>::empty() =~= Seq::<char>::empty() + m.message_text);
    assert(m.reasoning_text + Seq::<char>::empty() =~= Seq::<char>::empty() + m.reasoning_text);
}

pub proof fn lemma_one_event(e: EventModel)
    ensures
        forall|kind: spec_fn(EventModel) -> bool| #[trigger]
            count(seq![e], kind) == as_number(kind(e)),
        forall|part: spec_fn(EventModel) -> Seq<char>| #[trigger]
            gathered(seq![e], part) == part(e),
{
    let one = seq![e];
    assert(one.drop_last() =~= Seq::<EventModel>::empty());
    assert forall|kind: spec_fn(EventModel) -> bool| #[trigger]
        count(seq![e], kind) == as_number(kind(e)) by {
        assert(count(one.drop_last(), kind) == 0);
    }
    assert forall|part: spec_fn(EventModel) -> Seq<char>| #[trigger]
        gathered(seq![e], part) == part(e) by {
        assert(gathered(one.drop_last(), part) =~= Seq::<char>::empty());
        assert(Seq::<char>::empty() + part(e) =~= part(e));
    }
}

pub proof fn lemma_item_kinds()
    ensures
        "message"@ != "reasoning"@,
        "message"@ != "function_call"@,
        "reasoning"@ != "function_call"@,
        "type"@ != "id"@,
        "type"@ != "role"@,
        "type"@ != "status"@,
        "type"@ != "content"@,
        "type"@ != "summary"@,
        "type"@ != "text"@,
        "type"@ != "call_id"@,
        "type"@ != "name"@,
        "type"@ != "arguments"@,
        "id"@ != "role"@,
        "id"@ != "status"@,
        "id"@ != "content"@,
        "id"@ != "summary"@,
        "id"@ != "call_id"@,
        "id"@ != "name"@,
        "id"@ != "arguments"@,
        "content"@ != "status"@,
        "content"@ != "summary"@,
        "arguments"@ != "status"@,
        "arguments"@ != "name"@,
{
    reveal_strlit("message");
    reveal_strlit("reasoning");
    reveal_strlit("function_call");
    reveal_strlit("type");
    reveal_strlit("id");
    reveal_strlit("role");
    reveal_strlit("status");
    reveal_strlit("content");
    reveal_strlit("summary");
    reveal_strlit("text");
    reveal_strlit("call_id");
    reveal_strlit("name");
    reveal_strlit("arguments");
    assert("message"@.len() == 7 && "reasoning"@.len() == 9 && "function_call"@.len() == 13);
    assert("type"@.len() == 4 && "id"@.len() == 2 && "role"@.len() == 4 && "status"@.len() == 6);
    assert("content"@.len() == 7 && "summary"@.len() == 7 && "text"@.len() == 4);
    assert("call_id"@.len() == 7 && "name"@.len() == 4 && "arguments"@.len() == 9);
    assert("type"@[0] == 't' && "role"@[0] == 'r' && "name"@[0] == 'n');
    assert("type"@[1] == 'y' && "text"@[1] == 'e');
    assert("content"@[0] == 'c' && "summary"@[0] == 's');
}

proof fn lemma_done_items(id: Seq<char>, text: Seq<char>)
    ensures
        item_is(message_done_item(id, text), "message"@),
        !item_is(message_done_item(id, text), "reasoning"@),
        item_text(message_done_item(id, text)) == text,
        item_is(reasoning_done_item(id, text), "reasoning"@),
        !item_is(reasoning_done_item(id, text), "message"@),
        item_text(reasoning_done_item(id, text)) == text,
{
    lemma_item_kinds();
    assert(seq![text_part("output_text"@, text)][0] == text_part("output_text"@, text));
    assert(seq![text_part("reasoning_text"@, text)][0] == text_part("reasoning_text"@, text));
}

proof fn lemma_lawful_created(m: StreamModel)
    ensures
        lawful(m, on_created(m)),
{
    if m.created_emitted {
        lemma_lawful_none(m, m);
    } else {
        lemma_one_event(on_created(m).events[0]);
        lemma_lawful_none(m, m);
    }
}

proof fn lemma_lawful_completed(m: StreamModel)
    ensures
        lawful(m, on_completed(m)),
{
    if !m.completed_emitted {
        lemma_one_event(on_completed(m).events[0]);
    }
    lemma_lawful_none(m, m);
}

proof fn lemma_lawful_reasoning(m: StreamModel, text: Option<Seq<char>>, now: u64)
    ensures
        lawful(m, on_reasoning(m, text, now)),
{
    lemma_lawful_none(m, m);
    if text is Some && text->0.len() > 0 {
        let opened = open_reasoning(m, now);
        if m.reasoning_item_id is None {
            lemma_one_event(opened.events[0]);
        }
        assert(lawful(m, opened));
        let o = opened.state;
        let added = add_reasoning(o, text->0);
        lemma_one_event(added.events[0]);
        lemma_lawful_none(o, o);
        assert(o.reasoning_text + text->0 =~= Seq::<char>::empty() + (o.reasoning_text
            + text->0));
        lemma_lawful_followed(m, opened, added);
    }
}

proof fn lemma_lawful_text(m: StreamModel, text: Option<Seq<char>>, now: u64)
    ensures
        lawful(m, on_text(m, text, now)),
{
    lemma_lawful_none(m, m);
    if text is Some && text->0.len() > 0 {
        let opened = open_message(m, now);
        if m.message_item_id is None {
            lemma_one_event(opened.events[0]);
        }
        assert(lawful(m, opened));
        let o = opened.state;
        let added = add_text(o, text->0);
        lemma_one_event(added.events[0]);
        lemma_lawful_none(o, o);
        assert(o.message_text + text->0 =~= Seq::<char>::empty() + (o.message_text + text->0));
        lemma_lawful_followed(m, opened, added);
    }
}

proof fn lemma_lawful_call(m: StreamModel, tc: ChatToolCall, now: u64)
    ensures
        lawful(m, on_tool_call(m, tc, now)),
{
    let l = label_call(m, tc, now);
    lemma_lawful_none(m, l);
    let announced = announce_call(l, tc.index);
    lemma_lawful_none(l, l);
    if announced.events.len() > 0 {
        lemma_one_event(announced.events[0]);
    }
    assert(lawful(l, announced));
    let added = add_arguments(announced.state, tc.index, call_arguments(tc));
    lemma_lawful_none(announced.state, announced.state);
    if added.events.len() > 0 {
        lemma_one_event(added.events[0]);
    }
    assert(lawful(announced.state, added));
    lemma_lawful_followed(m, no_step(l), announced);
    assert(followed_by(no_step(l), announced).events =~= announced.events);
    lemma_lawful_followed(m, announced, added);
}

proof fn lemma_lawful_calls(m: StreamModel, calls: Seq<ChatToolCall>, now: u64)
    ensures
        lawful(m, on_tool_calls(m, calls, now)),
    decreases calls.len(),
{
    if calls.len() == 0 {
        lemma_lawful_none(m, m);
    } else {
        let before = on_tool_calls(m, calls.drop_last(), now);
        lemma_lawful_calls(m, calls.drop_last(), now);
        lemma_lawful_call(before.state, calls.last(), now);
        lemma_lawful_followed(m, before, on_tool_call(before.state, calls.last(), now));
    }
}

proof fn lemma_lawful_close_calls(m: StreamModel, indices: Seq<u32>)
    ensures
        lawful(m, close_calls(m, indices)),
    decreases indices.len(),
{
    lemma_lawful_none(m, m);
    if indices.len() > 0 {
        let before = close_calls(m, indices.drop_last());
        lemma_lawful_close_calls(m, indices.drop_last());
        let b = before.state;
        let closed = close_call(b, indices.last());
        lemma_lawful_none(b, b);
        if closed.events.len() > 0 {
            lemma_one_event(closed.events[0]);
            lemma_item_kinds();
        }
        assert(lawful(b, closed));
        lemma_lawful_followed(m, before, closed);
    }
}

proof fn lemma_lawful_finish(m: StreamModel)
    ensures
        lawful(m, on_finish(m)),
{
    lemma_lawful_none(m, m);
    let a = close_reasoning(m);
    if m.reasoning_item_id is Some {
        lemma_one_event(a.events[0]);
        lemma_done_items(m.reasoning_item_id->0, m.reasoning_text);
        assert(m.reasoning_text + Seq::<char>::empty() =~= m.reasoning_text);
    }
    assert(lawful(m, a));
    let am = a.state;
    lemma_lawful_none(am, am);
    let closed = close_message(am);
    if am.message_item_id is Some {
        lemma_one_event(closed.events[0]);
        lemma_done_items(am.message_item_id->0, am.message_text);
        assert(am.message_text + Seq::<char>::empty() =~= am.message_text);
    }
    assert(lawful(am, closed));
    let b = followed_by(a, closed);
    lemma_lawful_followed(m, a, closed);
    let calls = close_calls(b.state, in_order(b.state.tool_calls.dom()));
    lemma_lawful_close_calls(b.state, in_order(b.state.tool_calls.dom()));
    let c = followed_by(b, calls);
    lemma_lawful_followed(m, b, calls);
    lemma_lawful_completed(c.state);
    lemma_lawful_followed(m, c, on_completed(c.state));
}

proof fn lemma_lawful_chunk(m: StreamModel, chunk: ChatChunk, now: u64)
    ensures
        lawful(m, on_chunk(m, chunk, now)),
{
    let a = on_created(m);
    lemma_lawful_created(m);
    let u = with_usage(a.state, chunk.usage);
    lemma_lawful_none(a.state, u);
    let b = Step { state: u, ..a };
    lemma_lawful_followed(m, a, no_step(u));
    assert(followed_by(a, no_step(u)).events =~= a.events);
    assert(lawful(m, b));
    if chunk.choices@.len() > 0 {
        let choice = chunk.choices@[0];
        let rs = on_reasoning(b.state, string_view(choice.delta.reasoning_content), now);
        lemma_lawful_reasoning(b.state, string_view(choice.delta.reasoning_content), now);
        let c = followed_by(b, rs);
        lemma_lawful_followed(m, b, rs);
        let tx = on_text(c.state, string_view(choice.delta.content), now);
        lemma_lawful_text(c.state, string_view(choice.delta.content), now);
        let d = followed_by(c, tx);
        lemma_lawful_followed(m, c, tx);
        let e = match choice.delta.tool_calls {
            Some(calls) => {
                lemma_lawful_calls(d.state, calls@, now);
                lemma_lawful_followed(m, d, on_tool_calls(d.state, calls@, now));
                followed_by(d, on_tool_calls(d.state, calls@, now))
            },
            None => d,
        };
        if choice.finish_reason is Some {
            lemma_lawful_finish(e.state);
            lemma_lawful_followed(m, e, on_finish(e.state));
        }
    }
}

/// Every run of a converter is lawful: its events are numbered in a row, carry
/// the names of one response, announce it at most once and complete it at most
/// once, and the text that it has shown in pieces is the text of the items that
/// it has completed and of the one that is open.
pub proof fn runs_are_lawful(m: StreamModel, chunks: Seq<ChatChunk>, readings: Seq<Reading>)
    ensures
        lawful(m, run(m, chunks, readings)),
    decreases chunks.len(),
{
    if chunks.len() == 0 {
        lemma_lawful_none(m, m);
    } else {
        let before = run(m, chunks.drop_last(), readings);
        runs_are_lawful(m, chunks.drop_last(), readings);
        let r = readings[chunks.len() - 1];
        lemma_lawful_chunk(at_count(before.state, r.count), chunks.last(), r.now);
        lemma_lawful_followed(m, before, on_chunk_at(before.state, chunks.last(), r));
    }
}

/// A call of a converter.
pub enum StreamCall {
    /// A chunk is taken in.
    Chunk(ChatChunk, Reading),
    /// The announcement of the response is asked for.
    EnsureCreated,
    /// The completion of the response is asked for.
    EmitCompleted,
    /// A failure is reported.
    EmitFailed(Seq<char>),
}

/// What a converter does on a call.
pub open spec fn on_call(m: StreamModel, call: StreamCall) -> Step {
    match call {
        StreamCall::Chunk(chunk, at) => on_chunk_at(m, chunk, at),
        StreamCall::EnsureCreated => on_created(m),
        StreamCall::EmitCompleted => on_completed(m),
        StreamCall::EmitFailed(message) => on_failed(m, message),
    }
}

/// What a converter does on calls, one after another.
pub open spec fn mixed_run(m: StreamModel, calls: Seq<StreamCall>) -> Step
    decreases calls.len(),
{
    if calls.len() == 0 {
        no_step(m)
    } else {
        let before = mixed_run(m, calls.drop_last());
        followed_by(before, on_call(before.state, calls.last()))
    }
}

proof fn lemma_lawful_failed(m: StreamModel, message: Seq<char>)
    ensures
        lawful(m, on_failed(m, message)),
{
    lemma_one_event(on_failed(m, message).events[0]);
    lemma_lawful_none(m, m);
}

/// Every run of a converter is lawful, whatever calls come in between.
pub proof fn mixed_runs_are_lawful(m: StreamModel, calls: Seq<StreamCall>)
    ensures
        lawful(m, mixed_run(m, calls)),
    decreases calls.len(),
{
    if calls.len() == 0 {
        lemma_lawful_none(m, m);
    } else {
        let before = mixed_run(m, calls.drop_last());
        mixed_runs_are_lawful(m, calls.drop_last());
        match calls.last() {
            StreamCall::Chunk(chunk, at) => {
                lemma_lawful_chunk(at_count(before.state, at.count), chunk, at.now);
            },
            StreamCall::EnsureCreated => {
                lemma_lawful_created(before.state);
            },
            StreamCall::EmitCompleted => {
                lemma_lawful_completed(before.state);
            },
            StreamCall::EmitFailed(message) => {
                lemma_lawful_failed(before.state, message);
            },
        }
        lemma_lawful_followed(m, before, on_call(before.state, calls.last()));
    }
}

/// What a whole stream is answered with: the first event announces the response,
/// no other does, exactly one completes it, all are numbered in a row from 0 on,
/// and the response has one id, one time and the model name that the converter
/// was made with.
pub proof fn a_stream_is_one_response(
    model: Seq<char>,
    count_before: u64,
    now: u64,
    secs: u64,
    chunks: Seq<ChatChunk>,
    readings: Seq<Reading>,
)
    ensures
        ({
            let m = initial(model, count_before, now, secs);
            let events = whole_run(m, chunks, readings).events;
            &&& events.len() > 0
            &&& events[0] is Created
            &&& count(events, is_created()) == 1
            &&& count(events, is_completed()) == 1
            &&& named(m, events)
            &&& m.model == model
            &&& m.created_at == secs
            &&& forall|i: int|
                0 <= i < events.len() ==> (#[trigger] events[i]).number() == number_after(
                    0,
                    i as nat,
                )
        }),
{
    let m = initial(model, count_before, now, secs);
    let begun = on_created(m);
    lemma_lawful_created(m);
    let rest = run(begun.state, chunks, readings);
    runs_are_lawful(begun.state, chunks, readings);
    let chunked = followed_by(begun, rest);
    lemma_lawful_followed(m, begun, rest);
    let c = chunked.state;
    let given_up = StreamModel { reasoning_item_id: None, message_item_id: None, ..c };
    lemma_lawful_completed(given_up);
    let whole = whole_run(m, chunks, readings);
    let ended = on_end(c);
    assert(ended == on_completed(given_up));
    lemma_count_concat(chunked.events, ended.events, is_created());
    lemma_count_concat(chunked.events, ended.events, is_completed());
    assert(whole.events[0] == begun.events[0]);
    assert forall|i: int| 0 <= i < whole.events.len() implies (
    #[trigger] whole.events[i]).number() == number_after(0, i as nat) by {
        if i < chunked.events.len() {
            assert(whole.events[i] == chunked.events[i]);
        } else {
            let j = i - chunked.events.len();
            assert(whole.events[i] == ended.events[j]);
            lemma_number_after(0, chunked.events.len(), j as nat);
        }
    }
    assert forall|i: int| 0 <= i < whole.events.len() implies match #[trigger] whole.events[i] {
        EventModel::Created { response, .. } => response.model == m.model && response.id
            == m.response_id && response.created_at == m.created_at,
        EventModel::Completed { response, .. } => response.model == m.model && response.id
            == m.response_id && response.created_at == m.created_at,
        _ => true,
    } by {
        if i < chunked.events.len() {
            assert(whole.events[i] == chunked.events[i]);
        } else {
            assert(whole.events[i] == ended.events[i - chunked.events.len()]);
        }
    }
}

/// A chunk that ends the answer closes the message and the reasoning, and the
/// response is complete after it.
pub proof fn a_finish_closes_the_texts(m: StreamModel, chunk: ChatChunk, now: u64)
    requires
        chunk.choices@.len() > 0,
        chunk.choices@[0].finish_reason is Some,
    ensures
        on_chunk(m, chunk, now).state.message_item_id is None,
        on_chunk(m, chunk, now).state.reasoning_item_id is None,
        on_chunk(m, chunk, now).state.completed_emitted,
{
    let a = on_created(m);
    let b = Step { state: with_usage(a.state, chunk.usage), ..a };
    let choice = chunk.choices@[0];
    let c = followed_by(
        b,
        on_reasoning(b.state, string_view(choice.delta.reasoning_content), now),
    );
    let d = followed_by(c, on_text(c.state, string_view(choice.delta.content), now));
    let e = match choice.delta.tool_calls {
        Some(calls) => followed_by(d, on_tool_calls(d.state, calls@, now)),
        None => d,
    };
    let f = close_reasoning(e.state);
    let g = followed_by(f, close_message(f.state));
    lemma_close_calls_keep(g.state, in_order(g.state.tool_calls.dom()));
}

proof fn lemma_close_calls_keep(m: StreamModel, indices: Seq<u32>)
    ensures
        close_calls(m, indices).state.message_item_id == m.message_item_id,
        close_calls(m, indices).state.reasoning_item_id == m.reasoning_item_id,
    decreases indices.len(),
{
    if indices.len() > 0 {
        lemma_close_calls_keep(m, indices.drop_last());
    }
}

/// Once no message is open, the messages that were completed hold exactly the
/// text that was shown in pieces; the same holds of the reasoning.
pub proof fn completed_text_is_the_text_shown(
    model: Seq<char>,
    count_before: u64,
    now: u64,
    secs: u64,
    chunks: Seq<ChatChunk>,
    readings: Seq<Reading>,
)
    ensures
        ({
            let s = run(initial(model, count_before, now, secs), chunks, readings);
            &&& s.state.message_item_id is None ==> gathered(s.events, done_text("message"@))
                == gathered(s.events, text_delta())
            &&& s.state.reasoning_item_id is None ==> gathered(s.events, done_text("reasoning"@))
                == gathered(s.events, reasoning_delta())
        }),
{
    let m = initial(model, count_before, now, secs);
    let s = run(m, chunks, readings);
    runs_are_lawful(m, chunks, readings);
    assert(m.message_text + gathered(s.events, text_delta()) =~= gathered(
        s.events,
        text_delta(),
    ));
    assert(m.reasoning_text + gathered(s.events, reasoning_delta()) =~= gathered(
        s.events,
        reasoning_delta(),
    ));
    if s.state.message_item_id is None {
        assert(gathered(s.events, done_text("message"@)) + s.state.message_text =~= gathered(
            s.events,
            done_text("message"@),
        ));
    }
    if s.state.reasoning_item_id is None {
        assert(gathered(s.events, done_text("reasoning"@)) + s.state.reasoning_text =~= gathered(
            s.events,
            done_text("reasoning"@),
        ));
    }
}

/// The arguments that an event adds to a tool call.
pub open spec fn arguments_delta() -> spec_fn(EventModel) -> Seq<char> {
    |e: EventModel|
        match e {
            EventModel::FunctionCallArgumentsDelta { delta, .. } => delta,
            _ => Seq::empty(),
        }
}

/// A text, empty where there is none.
pub open spec fn or_empty(text: Option<Seq<char>>) -> Seq<char> {
    match text {
        Some(t) => t,
        None => Seq::empty(),
    }
}

/// The arguments in pieces of tool calls, one after another.
pub open spec fn arguments_in(calls: Seq<ChatToolCall>) -> Seq<char>
    decreases calls.len(),
{
    if calls.len() == 0 {
        Seq::empty()
    } else {
        arguments_in(calls.drop_last()) + match calls.last().function {
            Some(f) => match f.arguments {
                Some(a) => a@,
                None => Seq::empty(),
            },
            None => Seq::empty(),
        }
    }
}

/// What a chunk brings: message text, reasoning, and arguments of tool calls.
pub struct Brought {
    pub text: Seq<char>,
    pub reasoning: Seq<char>,
    pub arguments: Seq<char>,
}

/// Nothing.
pub open spec fn brought_nothing() -> Brought {
    Brought { text: Seq::empty(), reasoning: Seq::empty(), arguments: Seq::empty() }
}

/// Two portions, one after the other.
pub open spec fn joined_with(a: Brought, b: Brought) -> Brought {
    Brought {
        text: a.text + b.text,
        reasoning: a.reasoning + b.reasoning,
        arguments: a.arguments + b.arguments,
    }
}

/// What the first choice of a chunk brings.
pub open spec fn brought_by(chunk: ChatChunk) -> Brought {
    if chunk.choices@.len() == 0 {
        brought_nothing()
    } else {
        let delta = chunk.choices@[0].delta;
        Brought {
            text: or_empty(string_view(delta.content)),
            reasoning: or_empty(string_view(delta.reasoning_content)),
            arguments: match delta.tool_calls {
                Some(calls) => arguments_in(calls@),
                None => Seq::empty(),
            },
        }
    }
}

/// What chunks bring, one after another.
pub open spec fn brought_by_all(chunks: Seq<ChatChunk>) -> Brought
    decreases chunks.len(),
{
    if chunks.len() == 0 {
        brought_nothing()
    } else {
        let before = brought_by_all(chunks.drop_last());
        let last = brought_by(chunks.last());
        joined_with(before, last)
    }
}

/// What events show in pieces.
pub open spec fn shown(events: Seq<EventModel>) -> Brought {
    Brought {
        text: gathered(events, text_delta()),
        reasoning: gathered(events, reasoning_delta()),
        arguments: gathered(events, arguments_delta()),
    }
}

proof fn lemma_shown_followed(a: Step, b: Step)
    ensures
        shown(followed_by(a, b).events) == joined_with(shown(a.events), shown(b.events)),
{
    lemma_gathered_concat(a.events, b.events, text_delta());
    lemma_gathered_concat(a.events, b.events, reasoning_delta());
    lemma_gathered_concat(a.events, b.events, arguments_delta());
}

proof fn lemma_shown_texts(m: StreamModel, text: Option<Seq<char>>, now: u64)
    ensures
        shown(on_created(m).events) == brought_nothing(),
        shown(on_text(m, text, now).events) == (Brought {
            text: or_empty(text),
            ..brought_nothing()
        }),
        shown(on_reasoning(m, text, now).events) == (Brought {
            reasoning: or_empty(text),
            ..brought_nothing()
        }),
{
    if !m.created_emitted {
        lemma_one_event(on_created(m).events[0]);
    }
    if text is Some && text->0.len() > 0 {
        let om = open_message(m, now);
        if om.events.len() > 0 {
            lemma_one_event(om.events[0]);
        }
        let at = add_text(om.state, text->0);
        lemma_one_event(at.events[0]);
        lemma_shown_followed(om, at);
        assert(Seq::<char>::empty() + text->0 =~= text->0);
        assert(Seq::<char>::empty() + Seq::<char>::empty() =~= Seq::<char>::empty());
        let or = open_reasoning(m, now);
        if or.events.len() > 0 {
            lemma_one_event(or.events[0]);
        }
        let ar = add_reasoning(or.state, text->0);
        lemma_one_event(ar.events[0]);
        lemma_shown_followed(or, ar);
    } else {
        assert(or_empty(text) =~= Seq::<char>::empty());
    }
}

proof fn lemma_joined_with_nothing(a: Brought)
    ensures
        joined_with(a, brought_nothing()) == a,
        joined_with(brought_nothing(), a) == a,
{
    assert(a.text + Seq::<char>::empty() =~= a.text);
    assert(a.reasoning + Seq::<char>::empty() =~= a.reasoning);
    assert(a.arguments + Seq::<char>::empty() =~= a.arguments);
    assert(Seq::<char>::empty() + a.text =~= a.text);
    assert(Seq::<char>::empty() + a.reasoning =~= a.reasoning);
    assert(Seq::<char>::empty() + a.arguments =~= a.arguments);
}

proof fn lemma_shown_calls(m: StreamModel, calls: Seq<ChatToolCall>, now: u64)
    ensures
        shown(on_tool_calls(m, calls, now).events) == (Brought {
            arguments: arguments_in(calls),
            ..brought_nothing()
        }),
    decreases calls.len(),
{
    if calls.len() > 0 {
        let before = on_tool_calls(m, calls.drop_last(), now);
        lemma_shown_calls(m, calls.drop_last(), now);
        let tc = calls.last();
        let announced = announce_call(label_call(before.state, tc, now), tc.index);
        if announced.events.len() > 0 {
            lemma_one_event(announced.events[0]);
        }
        let added = add_arguments(announced.state, tc.index, call_arguments(tc));
        if added.events.len() > 0 {
            lemma_one_event(added.events[0]);
        } else {
            assert(or_empty(call_arguments(tc)) =~= Seq::<char>::empty());
        }
        lemma_shown_followed(announced, added);
        lemma_joined_with_nothing(shown(added.events));
        lemma_shown_followed(before, on_tool_call(before.state, tc, now));
        assert(Seq::<char>::empty() + Seq::<char>::empty() =~= Seq::<char>::empty());
    }
}

proof fn lemma_shown_close_calls(m: StreamModel, indices: Seq<u32>)
    ensures
        shown(close_calls(m, indices).events) == brought_nothing(),
    decreases indices.len(),
{
    if indices.len() > 0 {
        let before = close_calls(m, indices.drop_last());
        lemma_shown_close_calls(m, indices.drop_last());
        let closed = close_call(before.state, indices.last());
        if closed.events.len() > 0 {
            lemma_one_event(closed.events[0]);
        }
        lemma_shown_followed(before, closed);
        lemma_joined_with_nothing(brought_nothing());
    }
}

proof fn lemma_shown_finish(m: StreamModel)
    ensures
        shown(on_finish(m).events) == brought_nothing(),
{
    let a = close_reasoning(m);
    if a.events.len() > 0 {
        lemma_one_event(a.events[0]);
    }
    let cm = close_message(a.state);
    if cm.events.len() > 0 {
        lemma_one_event(cm.events[0]);
    }
    lemma_joined_with_nothing(brought_nothing());
    lemma_shown_followed(a, cm);
    let b = followed_by(a, cm);
    let calls = close_calls(b.state, in_order(b.state.tool_calls.dom()));
    lemma_shown_close_calls(b.state, in_order(b.state.tool_calls.dom()));
    lemma_shown_followed(b, calls);
    let c = followed_by(b, calls);
    let done = on_completed(c.state);
    if done.events.len() > 0 {
        lemma_one_event(done.events[0]);
    }
    lemma_shown_followed(c, done);
}

proof fn lemma_shown_chunk(m: StreamModel, chunk: ChatChunk, now: u64)
    ensures
        shown(on_chunk(m, chunk, now).events) == brought_by(chunk),
{
    let a = on_created(m);
    lemma_shown_texts(m, None, now);
    let b = Step { state: with_usage(a.state, chunk.usage), ..a };
    if chunk.choices@.len() > 0 {
        let choice = chunk.choices@[0];
        let reasoning = string_view(choice.delta.reasoning_content);
        let text = string_view(choice.delta.content);
        let rs = on_reasoning(b.state, reasoning, now);
        lemma_shown_texts(b.state, reasoning, now);
        lemma_shown_followed(b, rs);
        lemma_joined_with_nothing(shown(rs.events));
        let c = followed_by(b, rs);
        let tx = on_text(c.state, text, now);
        lemma_shown_texts(c.state, text, now);
        lemma_shown_followed(c, tx);
        let d = followed_by(c, tx);
        let nothing = Seq::<char>::empty();
        assert(nothing + or_empty(text) =~= or_empty(text));
        assert(or_empty(reasoning) + nothing =~= or_empty(reasoning));
        assert(nothing + nothing =~= nothing);
        let e = match choice.delta.tool_calls {
            Some(calls) => {
                let tcs = on_tool_calls(d.state, calls@, now);
                lemma_shown_calls(d.state, calls@, now);
                lemma_shown_followed(d, tcs);
                assert(or_empty(text) + nothing =~= or_empty(text));
                assert(nothing + arguments_in(calls@) =~= arguments_in(calls@));
                followed_by(d, tcs)
            },
            None => d,
        };
        assert(shown(e.events) == brought_by(chunk));
        if choice.finish_reason is Some {
            lemma_shown_finish(e.state);
            lemma_shown_followed(e, on_finish(e.state));
            lemma_joined_with_nothing(shown(e.events));
        }
    }
}

/// What the upstream brings comes through: the text, the reasoning and the
/// arguments that the events show in pieces are those of the chunks, in their
/// order, with nothing added and nothing left out.
pub proof fn what_is_brought_is_shown(m: StreamModel, chunks: Seq<ChatChunk>, readings: Seq<Reading>)
    ensures
        shown(run(m, chunks, readings).events) == brought_by_all(chunks),
    decreases chunks.len(),
{
    if chunks.len() > 0 {
        let before = run(m, chunks.drop_last(), readings);
        what_is_brought_is_shown(m, chunks.drop_last(), readings);
        let r = readings[chunks.len() - 1];
        lemma_shown_chunk(at_count(before.state, r.count), chunks.last(), r.now);
        lemma_shown_followed(before, on_chunk_at(before.state, chunks.last(), r));
    }
}

/// The last token count that chunks bring; `before` where they bring none.
pub open spec fn last_usage(before: Option<UsageSummary>, chunks: Seq<ChatChunk>) -> Option<
    UsageSummary,
>
    decreases chunks.len(),
{
    if chunks.len() == 0 {
        before
    } else {
        match chunks.last().usage {
            Some(u) => Some(
                UsageSummary {
                    input_tokens: u.prompt_tokens,
                    output_tokens: u.completion_tokens,
                    total_tokens: u.total_tokens,
                },
            ),
            None => last_usage(before, chunks.drop_last()),
        }
    }
}

proof fn lemma_calls_keep(m: StreamModel, calls: Seq<ChatToolCall>, now: u64)
    ensures
        on_tool_calls(m, calls, now).state.final_usage == m.final_usage,
        on_tool_calls(m, calls, now).state.completed_emitted == m.completed_emitted,
    decreases calls.len(),
{
    if calls.len() > 0 {
        lemma_calls_keep(m, calls.drop_last(), now);
    }
}

proof fn lemma_closing_keeps(m: StreamModel, indices: Seq<u32>)
    ensures
        close_calls(m, indices).state.final_usage == m.final_usage,
        close_calls(m, indices).state.completed_emitted == m.completed_emitted,
    decreases indices.len(),
{
    if indices.len() > 0 {
        lemma_closing_keeps(m, indices.drop_last());
    }
}

proof fn lemma_finish_completes(m: StreamModel)
    ensures
        on_finish(m).state.final_usage == m.final_usage,
        !m.completed_emitted ==> {
            let events = on_finish(m).events;
            &&& events.len() > 0
            &&& events.last() matches EventModel::Completed { response, .. } && response.usage
                == m.final_usage
        },
{
    let a = close_reasoning(m);
    let b = followed_by(a, close_message(a.state));
    lemma_closing_keeps(b.state, in_order(b.state.tool_calls.dom()));
}

proof fn lemma_chunk_usage(m: StreamModel, chunk: ChatChunk, now: u64)
    ensures
        on_chunk(m, chunk, now).state.final_usage == with_usage(m, chunk.usage).final_usage,
        !m.completed_emitted && chunk.choices@.len() > 0 && chunk.choices@[0].finish_reason is Some
            ==> {
            let events = on_chunk(m, chunk, now).events;
            &&& events.len() > 0
            &&& events.last() matches EventModel::Completed { response, .. } && response.usage
                == with_usage(m, chunk.usage).final_usage
        },
{
    let a = on_created(m);
    let b = Step { state: with_usage(a.state, chunk.usage), ..a };
    if chunk.choices@.len() > 0 {
        let choice = chunk.choices@[0];
        let c = followed_by(
            b,
            on_reasoning(b.state, string_view(choice.delta.reasoning_content), now),
        );
        let d = followed_by(c, on_text(c.state, string_view(choice.delta.content), now));
        let e = match choice.delta.tool_calls {
            Some(calls) => {
                lemma_calls_keep(d.state, calls@, now);
                followed_by(d, on_tool_calls(d.state, calls@, now))
            },
            None => d,
        };
        if choice.finish_reason is Some {
            lemma_finish_completes(e.state);
            let f = on_finish(e.state);
            if f.events.len() > 0 {
                assert(followed_by(e, f).events.last() == f.events.last());
            }
        }
    }
}

/// The token count of a stream is the last one that its chunks brought.
pub proof fn usage_is_the_last_one_brought(m: StreamModel, chunks: Seq<ChatChunk>, readings: Seq<Reading>)
    ensures
        run(m, chunks, readings).state.final_usage == last_usage(m.final_usage, chunks),
    decreases chunks.len(),
{
    if chunks.len() > 0 {
        let before = run(m, chunks.drop_last(), readings);
        usage_is_the_last_one_brought(m, chunks.drop_last(), readings);
        let r = readings[chunks.len() - 1];
        lemma_chunk_usage(at_count(before.state, r.count), chunks.last(), r.now);
    }
}

/// The first chunk that ends the answer completes the response, with the last
/// token count that has been brought, that of the chunk itself where it has one.
pub proof fn a_finish_completes_with_the_usage(
    m: StreamModel,
    chunks: Seq<ChatChunk>,
    readings: Seq<Reading>,
)
    requires
        chunks.len() > 0,
        chunks.last().choices@.len() > 0,
        chunks.last().choices@[0].finish_reason is Some,
        !run(m, chunks.drop_last(), readings).state.completed_emitted,
    ensures
        run(m, chunks, readings).events.len() > 0,
        run(m, chunks, readings).events.last() matches EventModel::Completed { response, .. }
            && response.usage == last_usage(m.final_usage, chunks),
{
    let before = run(m, chunks.drop_last(), readings);
    usage_is_the_last_one_brought(m, chunks.drop_last(), readings);
    let r = readings[chunks.len() - 1];
    lemma_chunk_usage(at_count(before.state, r.count), chunks.last(), r.now);
    let step = on_chunk_at(before.state, chunks.last(), r);
    assert(followed_by(before, step).events.last() == step.events.last());
}

} // verus!
