//! What is written to a stream of events is read back from it.

use crate::sse::lemma_line_events_concat;
use crate::sse::line_event;
use crate::sse::line_events;
use crate::sse::SseModel;
use crate::sse::DONE_LINE;
use crate::text::is_white_space;
use crate::text::lemma_one_line;
use crate::text::lines;
use crate::text::lines_of_concatenation;
use crate::text::trimmed;
use crate::text::trimmed_end;
use crate::text::trimmed_start;
use crate::text::CharClass;
use crate::translate::events::event_members;
use crate::translate::events::event_text;
use crate::translate::events::members_text;
use crate::translate::events::one_line_each;
use crate::translate::events::sse_event;
use crate::translate::events::sse_events;
use crate::translate::events::EventModel;
use vstd::prelude::*;

verus! {

/// The payloads of events.
pub open spec fn payloads(events: Seq<EventModel>) -> Seq<SseModel> {
    events.map_values(|e: EventModel| SseModel::Data(event_text(e)))
}

proof fn lemma_event_text_is_trimmed(e: EventModel)
    ensures
        trimmed(event_text(e)) == event_text(e),
        event_text(e) != "[DONE]"@,
{
    let t = event_text(e);
    reveal_strlit("{");
    reveal_strlit("}");
    reveal_strlit("[DONE]");
    assert(t =~= "{"@ + members_text(event_members(e)) + "}"@);
    assert(t.first() == '{');
    assert(t.last() == '}');
    assert(!is_white_space('{'));
    assert(!is_white_space('}'));
    assert(trimmed_start(t, CharClass::WhiteSpace) == t);
    assert(trimmed_end(t, CharClass::WhiteSpace) == t);
    assert("[DONE]"@[0] == '[');
}

proof fn lemma_two_line_feeds(x: Seq<char>)
    requires
        !x.contains('\n'),
    ensures
        lines(x + "\n\n"@).complete == seq![x, Seq::<char>::empty()],
        lines(x + "\n\n"@).rest == Seq::<char>::empty(),
{
    reveal_strlit("\n\n");
    lemma_one_line(x);
    let one = x.push('\n');
    assert(one.drop_last() =~= x);
    assert(lines(one).complete =~= seq![x]);
    let two = one.push('\n');
    assert(two.drop_last() =~= one);
    assert(x + "\n\n"@ =~= two);
    assert(lines(two).complete =~= seq![x, Seq::<char>::empty()]);
}

proof fn lemma_data_line(payload: Seq<char>)
    requires
        !payload.contains('\n'),
        trimmed(payload) == payload,
    ensures
        ({
            let written = lines("data: "@ + payload + "\n\n"@);
            &&& line_events(written.complete) == seq![
                if payload == "[DONE]"@ {
                    SseModel::Done
                } else {
                    SseModel::Data(payload)
                },
            ]
            &&& written.rest == Seq::<char>::empty()
        }),
{
    reveal_strlit("data: ");
    let line = "data: "@ + payload;
    assert forall|i: int| 0 <= i < line.len() implies line[i] != '\n' by {
        if i >= 6 {
            assert(payload.contains(payload[i - 6]));
            assert(line[i] == payload[i - 6]);
        }
    }
    lemma_two_line_feeds(line);
    assert("data: "@.is_prefix_of(line)) by {
        assert(line.subrange(0, 6) =~= "data: "@);
    }
    assert(line.skip(6) =~= payload);
    let empty = Seq::<char>::empty();
    assert(!"data: "@.is_prefix_of(empty));
    let both = seq![line, empty];
    assert(both.drop_first() =~= seq![empty]);
    let last = seq![empty];
    assert(line_event(last[0]) is None);
    assert(line_events(last.drop_first()) =~= Seq::<SseModel>::empty());
    assert(line_events(last) =~= Seq::<SseModel>::empty());
    assert(line_events(both) =~= seq![line_event(line)->0]);
}

/// The line that ends a stream is read as its end.
pub proof fn the_last_line_is_read_as_the_end()
    ensures
        line_events(lines(DONE_LINE@).complete) == seq![SseModel::Done],
        lines(DONE_LINE@).rest == Seq::<char>::empty(),
{
    reveal_strlit("data: [DONE]\n\n");
    reveal_strlit("data: ");
    reveal_strlit("[DONE]");
    reveal_strlit("\n\n");
    assert(DONE_LINE@ =~= "data: "@ + "[DONE]"@ + "\n\n"@);
    assert(trimmed_start("[DONE]"@, CharClass::WhiteSpace) == "[DONE]"@);
    assert(trimmed_end("[DONE]"@, CharClass::WhiteSpace) == "[DONE]"@);
    lemma_data_line("[DONE]"@);
}

/// Events that were written to a stream are read back from it, each as one
/// payload, in their order, with nothing left over.
pub proof fn written_events_are_read_back(events: Seq<EventModel>)
    requires
        one_line_each(events),
    ensures
        line_events(lines(sse_events(events)).complete) == payloads(events),
        lines(sse_events(events)).rest == Seq::<char>::empty(),
    decreases events.len(),
{
    if events.len() == 0 {
        assert(payloads(events) =~= Seq::<SseModel>::empty());
    } else {
        let first = events.drop_last();
        let e = events.last();
        assert forall|i: int| 0 <= i < first.len() implies !event_text(
            #[trigger] first[i],
        ).contains('\n') by {
            assert(first[i] == events[i]);
        }
        written_events_are_read_back(first);
        assert(!event_text(events[events.len() - 1]).contains('\n'));
        lemma_event_text_is_trimmed(e);
        lemma_data_line(event_text(e));
        let a = sse_events(first);
        lines_of_concatenation(a, sse_event(e));
        assert(Seq::<char>::empty() + sse_event(e) =~= sse_event(e));
        lemma_line_events_concat(lines(a).complete, lines(sse_event(e)).complete);
        assert(payloads(events) =~= payloads(first) + seq![SseModel::Data(event_text(e))]);
    }
}

/// A whole answer, with the line that ends it, is read back as its events and
/// the end of the stream, with nothing left over.
pub proof fn a_whole_answer_is_read_back(events: Seq<EventModel>)
    requires
        one_line_each(events),
    ensures
        line_events(lines(sse_events(events) + DONE_LINE@).complete) == payloads(events).push(
            SseModel::Done,
        ),
        lines(sse_events(events) + DONE_LINE@).rest == Seq::<char>::empty(),
{
    let a = sse_events(events);
    written_events_are_read_back(events);
    the_last_line_is_read_as_the_end();
    lines_of_concatenation(a, DONE_LINE@);
    assert(Seq::<char>::empty() + DONE_LINE@ =~= DONE_LINE@);
    lemma_line_events_concat(lines(a).complete, lines(DONE_LINE@).complete);
    assert(payloads(events) + seq![SseModel::Done] =~= payloads(events).push(SseModel::Done));
}

} // verus!
