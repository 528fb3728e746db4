//! What the upstream brings is on the wire.

use crate::json::Json;
use crate::json_laws::says;
use crate::json_laws::str_at;
use crate::sse::line_events;
use crate::sse::SseModel;
use crate::text::lines;
use crate::translate::chat::ChatChunk;
use crate::translate::chat::ChatToolCall;
use crate::translate::event_laws::an_event_is_written_as_its_json;
use crate::translate::event_laws::event_json;
use crate::translate::event_laws::lemma_event_names_differ;
use crate::translate::events::one_line_each;
use crate::translate::events::sse_events;
use crate::translate::events::EventModel;
use crate::translate::index_laws::before_finish;
use crate::translate::index_laws::finishes;
use crate::translate::index_laws::lemma_chunk_parts;
use crate::translate::index_laws::pieces_of;
use crate::translate::index_laws::texts_of;
use crate::translate::stream_laws::run;
use crate::translate::stream_laws::whole_run;
use crate::translate::stream_model::add_arguments;
use crate::translate::stream_model::announce_call;
use crate::translate::stream_model::at_count;
use crate::translate::stream_model::call_arguments;
use crate::translate::stream_model::close_call;
use crate::translate::stream_model::close_calls;
use crate::translate::stream_model::close_message;
use crate::translate::stream_model::close_reasoning;
use crate::translate::stream_model::followed_by;
use crate::translate::stream_model::in_order;
use crate::translate::stream_model::label_call;
use crate::translate::stream_model::on_chunk;
use crate::translate::stream_model::on_completed;
use crate::translate::stream_model::on_created;
use crate::translate::stream_model::on_end;
use crate::translate::stream_model::on_finish;
use crate::translate::stream_model::on_reasoning;
use crate::translate::stream_model::on_text;
use crate::translate::stream_model::on_tool_call;
use crate::translate::stream_model::on_tool_calls;
use crate::translate::stream_model::open_message;
use crate::translate::stream_model::open_reasoning;
use crate::translate::stream_model::Reading;
use crate::translate::stream_model::Step;
use crate::translate::stream_model::StreamModel;
use crate::translate::wire_laws::payloads;
use crate::translate::wire_laws::written_events_are_read_back;
use vstd::prelude::*;

verus! {

// ---------------------------------------------------------------------------
// What the upstream brings, and what is read from the wire

/// A text that is there and is not empty.
pub open spec fn something(t: Option<String>) -> Option<Seq<char>> {
    match t {
        Some(s) => if s@.len() > 0 {
            Some(s@)
        } else {
            None
        },
        None => None,
    }
}

/// The text of a message that a chunk brings.
pub open spec fn text_brought(chunk: ChatChunk) -> Option<Seq<char>> {
    if chunk.choices@.len() > 0 {
        something(chunk.choices@[0].delta.content)
    } else {
        None
    }
}

/// The reasoning that a chunk brings.
pub open spec fn reasoning_brought(chunk: ChatChunk) -> Option<Seq<char>> {
    if chunk.choices@.len() > 0 {
        something(chunk.choices@[0].delta.reasoning_content)
    } else {
        None
    }
}

/// The arguments that a piece of a tool call brings.
pub open spec fn piece_brought(tc: ChatToolCall) -> Option<Seq<char>> {
    match tc.function {
        Some(f) => something(f.arguments),
        None => None,
    }
}

/// The arguments that a chunk brings, piece by piece.
pub open spec fn arguments_brought(chunk: ChatChunk) -> Seq<Seq<char>> {
    if chunk.choices@.len() > 0 && chunk.choices@[0].delta.tool_calls is Some {
        chunk.choices@[0].delta.tool_calls->0@.filter_map(|tc: ChatToolCall| piece_brought(tc))
    } else {
        Seq::empty()
    }
}

/// The arguments that chunks bring, piece by piece.
pub open spec fn all_arguments_brought(chunks: Seq<ChatChunk>) -> Seq<Seq<char>>
    decreases chunks.len(),
{
    if chunks.len() == 0 {
        Seq::empty()
    } else {
        all_arguments_brought(chunks.drop_last()) + arguments_brought(chunks.last())
    }
}

/// Whether payloads, read as JSON, are these values.
pub open spec fn read_as(payloads: Seq<SseModel>, values: Seq<Json>) -> bool {
    &&& payloads.len() == values.len()
    &&& forall|i: int|
        0 <= i < payloads.len() ==> {
            &&& #[trigger] payloads[i] is Data
            &&& says(payloads[i]->Data_0, values[i], 3)
        }
}

/// The string under `delta` in a value of the type `kind`.
pub open spec fn delta_in(v: Json, kind: Seq<char>) -> Option<Seq<char>> {
    if str_at(v, "type"@) == Some(kind) {
        str_at(v, "delta"@)
    } else {
        None
    }
}

/// The strings under `delta` in the values of the type `kind`.
pub open spec fn deltas(values: Seq<Json>, kind: Seq<char>) -> Seq<Seq<char>> {
    values.filter_map(|v: Json| delta_in(v, kind))
}

// ---------------------------------------------------------------------------
// What events show

/// What events show, piece by piece.
pub struct Shown {
    pub texts: Seq<Seq<char>>,
    pub reasonings: Seq<Seq<char>>,
    pub arguments: Seq<Seq<char>>,
}

spec fn text_in() -> spec_fn(EventModel) -> Option<Seq<char>> {
    |e: EventModel|
        match e {
            EventModel::OutputTextDelta { delta, .. } => Some(delta),
            _ => None,
        }
}

spec fn reasoning_in() -> spec_fn(EventModel) -> Option<Seq<char>> {
    |e: EventModel|
        match e {
            EventModel::ReasoningTextDelta { delta, .. } => Some(delta),
            _ => None,
        }
}

spec fn arguments_in() -> spec_fn(EventModel) -> Option<Seq<char>> {
    |e: EventModel|
        match e {
            EventModel::FunctionCallArgumentsDelta { delta, .. } => Some(delta),
            _ => None,
        }
}

spec fn shown_in(events: Seq<EventModel>) -> Shown {
    Shown {
        texts: events.filter_map(text_in()),
        reasonings: events.filter_map(reasoning_in()),
        arguments: events.filter_map(arguments_in()),
    }
}

spec fn nothing_shown() -> Shown {
    Shown { texts: Seq::empty(), reasonings: Seq::empty(), arguments: Seq::empty() }
}

spec fn then_shown(a: Shown, b: Shown) -> Shown {
    Shown {
        texts: a.texts + b.texts,
        reasonings: a.reasonings + b.reasonings,
        arguments: a.arguments + b.arguments,
    }
}

spec fn as_list(t: Option<Seq<char>>) -> Seq<Seq<char>> {
    match t {
        Some(s) => seq![s],
        None => Seq::empty(),
    }
}

proof fn lemma_filter_map_concat<A, B>(a: Seq<A>, b: Seq<A>, f: spec_fn(A) -> Option<B>)
    ensures
        (a + b).filter_map(f) == a.filter_map(f) + b.filter_map(f),
    decreases b.len(),
{
    if b.len() == 0 {
        assert(a + b =~= a);
        assert(a.filter_map(f) + b.filter_map(f) =~= a.filter_map(f));
    } else {
        assert((a + b).drop_last() =~= a + b.drop_last());
        lemma_filter_map_concat(a, b.drop_last(), f);
        assert((a + b).filter_map(f) =~= a.filter_map(f) + b.filter_map(f));
    }
}

proof fn lemma_shown_then(a: Step, b: Step)
    ensures
        shown_in(followed_by(a, b).events) == then_shown(shown_in(a.events), shown_in(b.events)),
{
    lemma_filter_map_concat(a.events, b.events, text_in());
    lemma_filter_map_concat(a.events, b.events, reasoning_in());
    lemma_filter_map_concat(a.events, b.events, arguments_in());
}

proof fn lemma_shown_nothing(events: Seq<EventModel>)
    requires
        forall|i: int|
            0 <= i < events.len() ==> !(#[trigger] events[i] is OutputTextDelta)
                && !(events[i] is ReasoningTextDelta)
                && !(events[i] is FunctionCallArgumentsDelta),
    ensures
        shown_in(events) == nothing_shown(),
    decreases events.len(),
{
    if events.len() > 0 {
        let before = events.drop_last();
        assert forall|i: int| 0 <= i < before.len() implies !(
        #[trigger] before[i] is OutputTextDelta) && !(before[i] is ReasoningTextDelta) && !(
        before[i] is FunctionCallArgumentsDelta) by {
            assert(before[i] == events[i]);
        }
        lemma_shown_nothing(before);
        assert(!(events[events.len() - 1] is OutputTextDelta));
    }
}

proof fn lemma_shown_one(e: EventModel)
    ensures
        shown_in(seq![e]) == (Shown {
            texts: as_list(text_in()(e)),
            reasonings: as_list(reasoning_in()(e)),
            arguments: as_list(arguments_in()(e)),
        }),
{
    let one = seq![e];
    assert(one.drop_last() =~= Seq::<EventModel>::empty());
    assert(Seq::<EventModel>::empty().filter_map(text_in()) =~= Seq::empty());
    assert(Seq::<EventModel>::empty().filter_map(reasoning_in()) =~= Seq::empty());
    assert(Seq::<EventModel>::empty().filter_map(arguments_in()) =~= Seq::empty());
    let x = shown_in(one);
    assert(x.texts =~= as_list(text_in()(e)));
    assert(x.reasonings =~= as_list(reasoning_in()(e)));
    assert(x.arguments =~= as_list(arguments_in()(e)));
}

proof fn lemma_then_nothing(a: Shown)
    ensures
        then_shown(a, nothing_shown()) == a,
        then_shown(nothing_shown(), a) == a,
{
    let x = then_shown(a, nothing_shown());
    assert(x.texts =~= a.texts && x.reasonings =~= a.reasonings && x.arguments =~= a.arguments);
    let y = then_shown(nothing_shown(), a);
    assert(y.texts =~= a.texts && y.reasonings =~= a.reasonings && y.arguments =~= a.arguments);
}

proof fn lemma_text_shown(m: StreamModel, t: Option<String>, now: u64)
    ensures
        shown_in(on_text(m, crate::text::string_view(t), now).events) == (Shown {
            texts: as_list(something(t)),
            ..nothing_shown()
        }),
        shown_in(on_reasoning(m, crate::text::string_view(t), now).events) == (Shown {
            reasonings: as_list(something(t)),
            ..nothing_shown()
        }),
{
    let v = crate::text::string_view(t);
    let tx = on_text(m, v, now);
    let rs = on_reasoning(m, v, now);
    if something(t) is Some {
        let om = open_message(m, now);
        lemma_shown_nothing(om.events);
        let added = crate::translate::stream_model::add_text(om.state, v->0);
        lemma_shown_one(added.events[0]);
        assert(added.events =~= seq![added.events[0]]);
        lemma_shown_then(om, added);
        lemma_then_nothing(shown_in(added.events));
        let or = open_reasoning(m, now);
        lemma_shown_nothing(or.events);
        let more = crate::translate::stream_model::add_reasoning(or.state, v->0);
        lemma_shown_one(more.events[0]);
        assert(more.events =~= seq![more.events[0]]);
        lemma_shown_then(or, more);
        lemma_then_nothing(shown_in(more.events));
    } else {
        lemma_shown_nothing(tx.events);
        lemma_shown_nothing(rs.events);
    }
}

proof fn lemma_call_shown(m: StreamModel, tc: ChatToolCall, now: u64)
    ensures
        shown_in(on_tool_call(m, tc, now).events) == (Shown {
            arguments: as_list(piece_brought(tc)),
            ..nothing_shown()
        }),
{
    let announced = announce_call(label_call(m, tc, now), tc.index);
    let added = add_arguments(announced.state, tc.index, call_arguments(tc));
    lemma_shown_nothing(announced.events);
    lemma_shown_then(announced, added);
    if piece_brought(tc) is Some {
        lemma_shown_one(added.events[0]);
        assert(added.events =~= seq![added.events[0]]);
    } else {
        lemma_shown_nothing(added.events);
    }
    lemma_then_nothing(shown_in(added.events));
}

proof fn lemma_calls_shown(m: StreamModel, calls: Seq<ChatToolCall>, now: u64)
    ensures
        shown_in(on_tool_calls(m, calls, now).events) == (Shown {
            arguments: calls.filter_map(|tc: ChatToolCall| piece_brought(tc)),
            ..nothing_shown()
        }),
    decreases calls.len(),
{
    let f = |tc: ChatToolCall| piece_brought(tc);
    if calls.len() == 0 {
        lemma_shown_nothing(on_tool_calls(m, calls, now).events);
        assert(calls.filter_map(f) =~= Seq::<Seq<char>>::empty());
    } else {
        let first = calls.drop_last();
        let tc = calls.last();
        lemma_calls_shown(m, first, now);
        let before = on_tool_calls(m, first, now);
        lemma_call_shown(before.state, tc, now);
        lemma_shown_then(before, on_tool_call(before.state, tc, now));
        let x = shown_in(on_tool_calls(m, calls, now).events);
        assert(f(tc) == piece_brought(tc));
        assert(x.texts =~= Seq::<Seq<char>>::empty());
        assert(x.reasonings =~= Seq::<Seq<char>>::empty());
        assert(x.arguments =~= calls.filter_map(f));
    }
}

proof fn lemma_closing_shows_nothing(m: StreamModel, indices: Seq<u32>)
    ensures
        shown_in(close_calls(m, indices).events) == nothing_shown(),
    decreases indices.len(),
{
    if indices.len() == 0 {
        lemma_shown_nothing(close_calls(m, indices).events);
    } else {
        let before = close_calls(m, indices.drop_last());
        lemma_closing_shows_nothing(m, indices.drop_last());
        let last = close_call(before.state, indices.last());
        lemma_shown_nothing(last.events);
        lemma_shown_then(before, last);
        lemma_then_nothing(nothing_shown());
    }
}

proof fn lemma_finish_shows_nothing(m: StreamModel)
    ensures
        shown_in(on_finish(m).events) == nothing_shown(),
{
    let a = close_reasoning(m);
    let cm = close_message(a.state);
    let b = followed_by(a, cm);
    let calls = close_calls(b.state, in_order(b.state.tool_calls.dom()));
    let c = followed_by(b, calls);
    let done = on_completed(c.state);
    lemma_shown_nothing(a.events);
    lemma_shown_nothing(cm.events);
    lemma_shown_then(a, cm);
    lemma_closing_shows_nothing(b.state, in_order(b.state.tool_calls.dom()));
    lemma_shown_then(b, calls);
    lemma_shown_nothing(done.events);
    lemma_shown_then(c, done);
    lemma_then_nothing(nothing_shown());
}

proof fn lemma_chunk_shown(m: StreamModel, chunk: ChatChunk, now: u64)
    ensures
        shown_in(on_chunk(m, chunk, now).events) == (Shown {
            texts: as_list(text_brought(chunk)),
            reasonings: as_list(reasoning_brought(chunk)),
            arguments: arguments_brought(chunk),
        }),
{
    let a = on_created(m);
    lemma_shown_nothing(a.events);
    let b = Step {
        state: crate::translate::stream_model::with_usage(a.state, chunk.usage),
        ..a
    };
    let d = texts_of(m, chunk, now);
    if chunk.choices@.len() > 0 {
        let delta = chunk.choices@[0].delta;
        lemma_text_shown(b.state, delta.reasoning_content, now);
        let rs = on_reasoning(
            b.state,
            crate::text::string_view(delta.reasoning_content),
            now,
        );
        let c = followed_by(b, rs);
        lemma_shown_then(b, rs);
        lemma_text_shown(c.state, delta.content, now);
        let tx = on_text(c.state, crate::text::string_view(delta.content), now);
        lemma_shown_then(c, tx);
    }
    let calls = on_tool_calls(d.state, pieces_of(chunk), now);
    lemma_calls_shown(d.state, pieces_of(chunk), now);
    lemma_shown_then(d, calls);
    let e = before_finish(m, chunk, now);
    lemma_chunk_parts(m, chunk, now);
    if pieces_of(chunk).len() == 0 {
        assert(pieces_of(chunk).filter_map(|tc: ChatToolCall| piece_brought(tc)) =~= Seq::<
            Seq<char>,
        >::empty());
    }
    let x = shown_in(e.events);
    assert(x.texts =~= as_list(text_brought(chunk)));
    assert(x.reasonings =~= as_list(reasoning_brought(chunk)));
    assert(x.arguments =~= arguments_brought(chunk));
    if finishes(chunk) {
        lemma_finish_shows_nothing(e.state);
        lemma_shown_then(e, on_finish(e.state));
        lemma_then_nothing(x);
    }
}

proof fn lemma_run_shown(m: StreamModel, chunks: Seq<ChatChunk>, readings: Seq<Reading>)
    ensures
        shown_in(run(m, chunks, readings).events) == (Shown {
            texts: chunks.filter_map(|c: ChatChunk| text_brought(c)),
            reasonings: chunks.filter_map(|c: ChatChunk| reasoning_brought(c)),
            arguments: all_arguments_brought(chunks),
        }),
    decreases chunks.len(),
{
    let f = |c: ChatChunk| text_brought(c);
    let g = |c: ChatChunk| reasoning_brought(c);
    if chunks.len() == 0 {
        lemma_shown_nothing(run(m, chunks, readings).events);
        assert(chunks.filter_map(f) =~= Seq::<Seq<char>>::empty());
        assert(chunks.filter_map(g) =~= Seq::<Seq<char>>::empty());
    } else {
        let first = chunks.drop_last();
        let chunk = chunks.last();
        lemma_run_shown(m, first, readings);
        let before = run(m, first, readings);
        let r = readings[chunks.len() - 1];
        let at = at_count(before.state, r.count);
        lemma_chunk_shown(at, chunk, r.now);
        lemma_shown_then(before, on_chunk(at, chunk, r.now));
        let x = shown_in(run(m, chunks, readings).events);
        assert(f(chunk) == text_brought(chunk));
        assert(g(chunk) == reasoning_brought(chunk));
        assert(x.texts =~= chunks.filter_map(f));
        assert(x.reasonings =~= chunks.filter_map(g));
        assert(x.arguments =~= all_arguments_brought(chunks));
    }
}

// ---------------------------------------------------------------------------
// From events to the wire

/// The types of events differ.
proof fn lemma_types_differ()
    ensures
        "response.created"@ != "response.output_item.added"@,
        "response.created"@ != "response.output_text.delta"@,
        "response.created"@ != "response.reasoning_text.delta"@,
        "response.created"@ != "response.function_call_arguments.delta"@,
        "response.created"@ != "response.output_item.done"@,
        "response.created"@ != "response.completed"@,
        "response.created"@ != "response.failed"@,
        "response.output_item.added"@ != "response.output_text.delta"@,
        "response.output_item.added"@ != "response.reasoning_text.delta"@,
        "response.output_item.added"@ != "response.function_call_arguments.delta"@,
        "response.output_item.added"@ != "response.output_item.done"@,
        "response.output_item.added"@ != "response.completed"@,
        "response.output_item.added"@ != "response.failed"@,
        "response.output_text.delta"@ != "response.reasoning_text.delta"@,
        "response.output_text.delta"@ != "response.function_call_arguments.delta"@,
        "response.output_text.delta"@ != "response.output_item.done"@,
        "response.output_text.delta"@ != "response.completed"@,
        "response.output_text.delta"@ != "response.failed"@,
        "response.reasoning_text.delta"@ != "response.function_call_arguments.delta"@,
        "response.reasoning_text.delta"@ != "response.output_item.done"@,
        "response.reasoning_text.delta"@ != "response.completed"@,
        "response.reasoning_text.delta"@ != "response.failed"@,
        "response.function_call_arguments.delta"@ != "response.output_item.done"@,
        "response.function_call_arguments.delta"@ != "response.completed"@,
        "response.function_call_arguments.delta"@ != "response.failed"@,
        "response.output_item.done"@ != "response.completed"@,
        "response.output_item.done"@ != "response.failed"@,
        "response.completed"@ != "response.failed"@,
{
    reveal_strlit("response.created");
    reveal_strlit("response.output_item.added");
    reveal_strlit("response.output_text.delta");
    reveal_strlit("response.reasoning_text.delta");
    reveal_strlit("response.function_call_arguments.delta");
    reveal_strlit("response.output_item.done");
    reveal_strlit("response.completed");
    reveal_strlit("response.failed");
    assert("response.created"@.len() == 16);
    assert("response.output_item.added"@.len() == 26);
    assert("response.output_text.delta"@.len() == 26);
    assert("response.reasoning_text.delta"@.len() == 29);
    assert("response.function_call_arguments.delta"@.len() == 38);
    assert("response.output_item.done"@.len() == 25);
    assert("response.completed"@.len() == 18);
    assert("response.failed"@.len() == 15);
    assert("response.output_item.added"@[16] == 'i' && "response.output_text.delta"@[16] == 't');
}

/// The values of events.
spec fn values_of(events: Seq<EventModel>) -> Seq<Json> {
    events.map_values(|e: EventModel| event_json(e))
}

proof fn lemma_deltas_of_values(
    events: Seq<EventModel>,
    kind: Seq<char>,
    part: spec_fn(EventModel) -> Option<Seq<char>>,
)
    requires
        forall|e: EventModel| delta_in(#[trigger] event_json(e), kind) == part(e),
    ensures
        deltas(values_of(events), kind) == events.filter_map(part),
    decreases events.len(),
{
    let f = |v: Json| delta_in(v, kind);
    let values = values_of(events);
    if events.len() == 0 {
        assert(values.filter_map(f) =~= events.filter_map(part));
    } else {
        lemma_deltas_of_values(events.drop_last(), kind, part);
        assert(values.drop_last() =~= values_of(events.drop_last()));
        assert(f(values.last()) == part(events.last()));
    }
}

proof fn lemma_deltas_in_events()
    ensures
        forall|e: EventModel|
            delta_in(#[trigger] event_json(e), "response.output_text.delta"@) == text_in()(e),
        forall|e: EventModel|
            delta_in(#[trigger] event_json(e), "response.reasoning_text.delta"@)
                == reasoning_in()(e),
        forall|e: EventModel|
            delta_in(#[trigger] event_json(e), "response.function_call_arguments.delta"@)
                == arguments_in()(e),
{
    lemma_types_differ();
    lemma_event_names_differ();
}

/// The payloads of events, read as JSON, are the values of the events.
proof fn lemma_read_as_values(events: Seq<EventModel>)
    requires
        one_line_each(events),
    ensures
        read_as(line_events(lines(sse_events(events)).complete), values_of(events)),
{
    let values = values_of(events);
    written_events_are_read_back(events);
    let read = line_events(lines(sse_events(events)).complete);
    assert forall|i: int| 0 <= i < read.len() implies {
        &&& #[trigger] read[i] is Data
        &&& says(read[i]->Data_0, values[i], 3)
    } by {
        assert(read[i] == payloads(events)[i]);
        an_event_is_written_as_its_json(events[i]);
    }
}

/// What the upstream brings is on the wire, as it is and in its order: the
/// payloads of the text that is sent, read as JSON, are values whose text deltas
/// are the texts of the chunks, one for each chunk that brings one; and so for
/// the reasoning and for the arguments of tool calls. Nothing is added, left out
/// or changed, white space included.
pub proof fn the_wire_shows_what_was_brought(
    m: StreamModel,
    chunks: Seq<ChatChunk>,
    readings: Seq<Reading>,
)
    requires
        one_line_each(run(m, chunks, readings).events),
    ensures
        exists|values: Seq<Json>|
            {
                &&& #[trigger] read_as(
                    line_events(lines(sse_events(run(m, chunks, readings).events)).complete),
                    values,
                )
                &&& deltas(values, "response.output_text.delta"@) == chunks.filter_map(
                    |c: ChatChunk| text_brought(c),
                )
                &&& deltas(values, "response.reasoning_text.delta"@) == chunks.filter_map(
                    |c: ChatChunk| reasoning_brought(c),
                )
                &&& deltas(values, "response.function_call_arguments.delta"@)
                    == all_arguments_brought(chunks)
            },
{
    let events = run(m, chunks, readings).events;
    lemma_read_as_values(events);
    lemma_run_shown(m, chunks, readings);
    lemma_deltas_in_events();
    lemma_deltas_of_values(events, "response.output_text.delta"@, text_in());
    lemma_deltas_of_values(events, "response.reasoning_text.delta"@, reasoning_in());
    lemma_deltas_of_values(events, "response.function_call_arguments.delta"@, arguments_in());
}

/// The same holds of a whole stream, from the event that announces the response to
/// the one that completes it.
pub proof fn a_whole_stream_shows_what_was_brought(
    m: StreamModel,
    chunks: Seq<ChatChunk>,
    readings: Seq<Reading>,
)
    requires
        one_line_each(whole_run(m, chunks, readings).events),
    ensures
        exists|values: Seq<Json>|
            {
                &&& #[trigger] read_as(
                    line_events(
                        lines(sse_events(whole_run(m, chunks, readings).events)).complete,
                    ),
                    values,
                )
                &&& deltas(values, "response.output_text.delta"@) == chunks.filter_map(
                    |c: ChatChunk| text_brought(c),
                )
                &&& deltas(values, "response.reasoning_text.delta"@) == chunks.filter_map(
                    |c: ChatChunk| reasoning_brought(c),
                )
                &&& deltas(values, "response.function_call_arguments.delta"@)
                    == all_arguments_brought(chunks)
            },
{
    let begun = on_created(m);
    let middle = run(begun.state, chunks, readings);
    let chunked = followed_by(begun, middle);
    let end = on_end(chunked.state);
    lemma_shown_nothing(begun.events);
    lemma_run_shown(begun.state, chunks, readings);
    lemma_shown_then(begun, middle);
    lemma_then_nothing(shown_in(middle.events));
    lemma_shown_nothing(end.events);
    lemma_shown_then(chunked, end);
    lemma_read_as_values(whole_run(m, chunks, readings).events);
    let events = whole_run(m, chunks, readings).events;
    lemma_deltas_in_events();
    lemma_deltas_of_values(events, "response.output_text.delta"@, text_in());
    lemma_deltas_of_values(events, "response.reasoning_text.delta"@, reasoning_in());
    lemma_deltas_of_values(events, "response.function_call_arguments.delta"@, arguments_in());
}

} // verus!
