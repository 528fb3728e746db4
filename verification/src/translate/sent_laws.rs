//! What a converter sends for a whole upstream.

use crate::json_laws::put_together;
use crate::sse::up_to_done;
use crate::sse::SseModel;
use crate::sse::DONE_LINE;
use crate::text_laws::nothing_counts_after_the_end;
use crate::translate::chat::ChatChunk;
use crate::translate::converter::item_of;
use crate::translate::converter::on_event;
use crate::translate::converter::read_error;
use crate::translate::converter::sent_for;
use crate::translate::cut_laws::answer_to;
use crate::translate::cut_laws::has_ended;
use crate::translate::cut_laws::on_events;
use crate::translate::cut_laws::read_pieces;
use crate::translate::events::sse_events;
use crate::translate::events::sse_events_of_concatenation;
use crate::translate::stream_laws::run;
use crate::translate::stream_laws::whole_run;
use crate::translate::stream_model::followed_by;
use crate::translate::stream_model::on_chunk_at;
use crate::translate::stream_model::on_created;
use crate::translate::stream_model::on_end;
use crate::translate::stream_model::Reading;
use crate::translate::stream_model::StreamModel;
use vstd::prelude::*;

verus! {

/// The chunk that is read from an event, if one is.
pub open spec fn chunk_read(
    e: SseModel,
    chunk_in: spec_fn(Seq<char>) -> Option<ChatChunk>,
) -> Option<ChatChunk> {
    match e {
        SseModel::Data(payload) => chunk_in(payload),
        SseModel::Done => None,
    }
}

/// The chunks that are read from events, in their order.
pub open spec fn chunks_read(
    events: Seq<SseModel>,
    chunk_in: spec_fn(Seq<char>) -> Option<ChatChunk>,
) -> Seq<ChatChunk> {
    events.filter_map(|e: SseModel| chunk_read(e, chunk_in))
}

/// The readings at which the chunks are read.
pub open spec fn readings_of_chunks(
    events: Seq<SseModel>,
    chunk_in: spec_fn(Seq<char>) -> Option<ChatChunk>,
    readings: Seq<Reading>,
) -> Seq<Reading>
    decreases events.len(),
{
    if events.len() == 0 {
        Seq::empty()
    } else {
        let before = readings_of_chunks(events.drop_last(), chunk_in, readings);
        if chunk_read(events.last(), chunk_in) is Some {
            before.push(readings[events.len() - 1])
        } else {
            before
        }
    }
}

/// Whether no event but the last is the end of the stream.
pub open spec fn ends_at_most_last(events: Seq<SseModel>) -> bool {
    forall|i: int| 0 <= i < events.len() - 1 ==> !(#[trigger] events[i] is Done)
}

proof fn lemma_read_ends_last(pieces: Seq<Seq<u8>>)
    ensures
        ends_at_most_last(read_pieces(pieces).events),
    decreases pieces.len(),
{
    if pieces.len() > 0 {
        let before = read_pieces(pieces.drop_last());
        lemma_read_ends_last(pieces.drop_last());
        if !has_ended(before.events) {
            let cut = crate::text::lines(before.rest + vstd::utf8::decode_utf8(pieces.last()));
            let said = crate::sse::line_events(cut.complete);
            nothing_counts_after_the_end(said);
            let more = up_to_done(said);
            let all = read_pieces(pieces).events;
            assert forall|i: int| 0 <= i < all.len() - 1 implies !(
            #[trigger] all[i] is Done) by {
                if i < before.events.len() {
                    assert(all[i] == before.events[i]);
                    if i == before.events.len() - 1 {
                        assert(before.events.last() == all[i]);
                    }
                } else {
                    assert(all[i] == more[i - before.events.len()]);
                }
            }
        }
    }
}

proof fn lemma_put_together_concat(a: Seq<Seq<char>>, b: Seq<Seq<char>>)
    ensures
        put_together(a + b) == put_together(a) + put_together(b),
    decreases b.len(),
{
    if b.len() == 0 {
        assert(a + b =~= a);
        assert(put_together(a) + put_together(b) =~= put_together(a));
    } else {
        assert((a + b).drop_last() =~= a + b.drop_last());
        lemma_put_together_concat(a, b.drop_last());
        assert(put_together(a + b) =~= put_together(a) + put_together(b));
    }
}

proof fn lemma_item_of(text: Seq<char>)
    ensures
        put_together(item_of(text)) == text,
        put_together(item_of(text).push(DONE_LINE@)) == text + DONE_LINE@,
{
    let items = item_of(text);
    let none = Seq::<Seq<char>>::empty();
    if text.len() > 0 {
        assert(items.drop_last() =~= none);
        assert(put_together(none) + text =~= text);
    }
    assert(put_together(items) =~= text);
    assert(items.push(DONE_LINE@).drop_last() =~= items);
}

/// Readings beyond the chunks do not matter to a run.
proof fn lemma_run_by_readings(
    m: StreamModel,
    chunks: Seq<ChatChunk>,
    a: Seq<Reading>,
    b: Seq<Reading>,
)
    requires
        forall|i: int| 0 <= i < chunks.len() ==> #[trigger] a[i] == b[i],
    ensures
        run(m, chunks, a) == run(m, chunks, b),
    decreases chunks.len(),
{
    if chunks.len() > 0 {
        lemma_run_by_readings(m, chunks.drop_last(), a, b);
        assert(a[chunks.len() - 1] == b[chunks.len() - 1]);
    }
}

proof fn lemma_on_events(
    m: StreamModel,
    events: Seq<SseModel>,
    chunk_in: spec_fn(Seq<char>) -> Option<ChatChunk>,
    readings: Seq<Reading>,
)
    requires
        forall|i: int| 0 <= i < events.len() ==> !(#[trigger] events[i] is Done),
    ensures
        ({
            let got = on_events(m, events, chunk_in, readings);
            let chunks = chunks_read(events, chunk_in);
            let rs = readings_of_chunks(events, chunk_in, readings);
            &&& rs.len() == chunks.len()
            &&& got.state == run(m, chunks, rs).state
            &&& put_together(got.items) == sse_events(run(m, chunks, rs).events)
        }),
    decreases events.len(),
{
    let f = |e: SseModel| chunk_read(e, chunk_in);
    let chunks = chunks_read(events, chunk_in);
    let rs = readings_of_chunks(events, chunk_in, readings);
    if events.len() == 0 {
        assert(chunks =~= Seq::<ChatChunk>::empty());
    } else {
        let first = events.drop_last();
        let e = events.last();
        assert forall|i: int| 0 <= i < first.len() implies !(#[trigger] first[i] is Done) by {
            assert(first[i] == events[i]);
        }
        lemma_on_events(m, first, chunk_in, readings);
        let before = on_events(m, first, chunk_in, readings);
        let earlier = chunks_read(first, chunk_in);
        let ers = readings_of_chunks(first, chunk_in, readings);
        assert(!(events[events.len() - 1] is Done));
        assert(f(e) == chunk_read(e, chunk_in));
        let chunk = chunk_read(e, chunk_in);
        let r = readings[events.len() - 1];
        let step = on_event(before.state, e, chunk, r);
        lemma_put_together_concat(before.items, sent_for(e, step));
        lemma_item_of(sse_events(step.events));
        match chunk {
            Some(c) => {
                assert(chunks =~= earlier.push(c));
                assert(chunks.drop_last() =~= earlier);
                assert(rs == ers.push(r));
                lemma_run_by_readings(m, earlier, rs, ers);
                sse_events_of_concatenation(run(m, earlier, ers).events, step.events);
                assert(run(m, chunks, rs) == followed_by(
                    run(m, earlier, ers),
                    on_chunk_at(before.state, c, r),
                ));
            },
            None => {
                assert(chunks =~= earlier);
                assert(put_together(before.items) + sse_events(step.events) =~= put_together(
                    before.items,
                ));
            },
        }
    }
}

/// What a converter sends for a whole upstream, put together: the events of one
/// whole stream of the chunks that it brought, in their order, and the line that
/// ends the stream, once, as the last item; whether the upstream announced its
/// end or just stopped.
pub proof fn a_whole_upstream_is_answered_as_one_stream(
    m: StreamModel,
    pieces: Seq<Seq<u8>>,
    chunk_in: spec_fn(Seq<char>) -> Option<ChatChunk>,
    readings: Seq<Reading>,
)
    ensures
        ({
            let events = read_pieces(pieces).events;
            let chunks = chunks_read(events, chunk_in);
            let rs = readings_of_chunks(events, chunk_in, readings);
            let items = answer_to(m, pieces, chunk_in, readings);
            &&& put_together(items) == sse_events(whole_run(m, chunks, rs).events)
                + "data: [DONE]\n\n"@
            &&& items.len() > 0
            &&& items.last() == "data: [DONE]\n\n"@
        }),
{
    let events = read_pieces(pieces).events;
    let chunks = chunks_read(events, chunk_in);
    let rs = readings_of_chunks(events, chunk_in, readings);
    let items = answer_to(m, pieces, chunk_in, readings);
    let begun = on_created(m);
    lemma_read_ends_last(pieces);
    lemma_item_of(sse_events(begun.events));
    let body = if has_ended(events) {
        events.drop_last()
    } else {
        events
    };
    assert forall|i: int| 0 <= i < body.len() implies !(#[trigger] body[i] is Done) by {
        assert(body[i] == events[i]);
        if i == events.len() - 1 {
            assert(events.last() == body[i]);
        }
    }
    lemma_on_events(begun.state, body, chunk_in, readings);
    let got = on_events(begun.state, body, chunk_in, readings);
    let f = |e: SseModel| chunk_read(e, chunk_in);
    if has_ended(events) {
        assert(f(events.last()) is None);
        assert(chunks == chunks_read(body, chunk_in));
        assert(rs == readings_of_chunks(body, chunk_in, readings));
    }
    let middle = run(begun.state, chunks, rs);
    let chunked = followed_by(begun, middle);
    let end = on_end(got.state);
    let last = item_of(sse_events(end.events)).push(DONE_LINE@);
    lemma_item_of(sse_events(end.events));
    sse_events_of_concatenation(begun.events, middle.events);
    sse_events_of_concatenation(chunked.events, end.events);
    let first = item_of(sse_events(begun.events));
    lemma_put_together_concat(first, got.items);
    lemma_put_together_concat(first + got.items, last);
    assert(items =~= (first + got.items) + last);
    assert(items.last() == last.last());
    assert(put_together(items) =~= sse_events(whole_run(m, chunks, rs).events) + DONE_LINE@);
}

/// A failure to read from the upstream is reported in full.
pub proof fn a_read_error_is_told_in_full(error: Seq<char>)
    ensures
        read_error(error).len() == 21 + error.len(),
        read_error(error).take(21) == "upstream read error: "@,
        read_error(error).skip(21) == error,
{
    reveal_strlit("upstream read error: ");
    assert("upstream read error: "@.len() == 21);
    assert(read_error(error).take(21) =~= "upstream read error: "@);
    assert(read_error(error).skip(21) =~= error);
}

} // verus!
