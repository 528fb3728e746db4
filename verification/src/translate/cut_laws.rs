//! Where the upstream is cut into pieces makes no difference to the answer.

use crate::sse::cuts_between_characters_make_no_difference;
use crate::sse::line_events;
use crate::sse::pieces_make_no_difference;
use crate::sse::up_to_done;
use crate::sse::SseModel;
use crate::text::lines;
use crate::translate::chat::ChatChunk;
use crate::translate::converter::item_of;
use crate::translate::converter::on_event;
use crate::translate::converter::sent_for;
use crate::translate::events::sse_events;
use crate::translate::stream_model::initial;
use crate::translate::stream_model::on_created;
use crate::translate::stream_model::on_end;
use crate::translate::stream_model::Reading;
use crate::translate::stream_model::StreamModel;
use vstd::prelude::*;

verus! {

/// The pieces of a byte stream, put together.
pub open spec fn whole_bytes(pieces: Seq<Seq<u8>>) -> Seq<u8>
    decreases pieces.len(),
{
    if pieces.len() == 0 {
        Seq::empty()
    } else {
        whole_bytes(pieces.drop_last()) + pieces.last()
    }
}

/// Whether each piece of a byte stream is text.
pub open spec fn all_text(pieces: Seq<Seq<u8>>) -> bool {
    forall|i: int| 0 <= i < pieces.len() ==> vstd::utf8::valid_utf8(#[trigger] pieces[i])
}

/// Whether events end with the end of the stream.
pub open spec fn has_ended(events: Seq<SseModel>) -> bool {
    events.len() > 0 && events.last() is Done
}

/// What has come of the stream: the events that were read, and what has come of a
/// line that is not complete.
pub struct Read {
    pub events: Seq<SseModel>,
    pub rest: Seq<char>,
}

/// What a converter reads from pieces of text, one after another, up to the end
/// of the stream. After it nothing is read.
pub open spec fn read_pieces(pieces: Seq<Seq<u8>>) -> Read
    decreases pieces.len(),
{
    if pieces.len() == 0 {
        Read { events: Seq::empty(), rest: Seq::empty() }
    } else {
        let before = read_pieces(pieces.drop_last());
        if has_ended(before.events) {
            before
        } else {
            let cut = lines(before.rest + vstd::utf8::decode_utf8(pieces.last()));
            Read {
                events: before.events + up_to_done(line_events(cut.complete)),
                rest: cut.rest,
            }
        }
    }
}

proof fn lemma_up_to_done_concat(a: Seq<SseModel>, b: Seq<SseModel>)
    ensures
        up_to_done(a + b) == if has_ended(up_to_done(a)) {
            up_to_done(a)
        } else {
            up_to_done(a) + up_to_done(b)
        },
    decreases a.len(),
{
    if a.len() == 0 {
        assert(a + b =~= b);
        assert(up_to_done(a) + up_to_done(b) =~= up_to_done(b));
    } else if a[0] is Done {
        assert((a + b)[0] is Done);
        assert(up_to_done(a).last() is Done);
    } else {
        let tail = a.drop_first();
        assert((a + b).drop_first() =~= tail + b);
        assert((a + b)[0] == a[0]);
        lemma_up_to_done_concat(tail, b);
        let whole = up_to_done(a);
        assert(whole =~= seq![a[0]] + up_to_done(tail));
        if up_to_done(tail).len() > 0 {
            assert(whole.last() == up_to_done(tail).last());
        } else {
            assert(whole.last() == a[0]);
        }
        assert(seq![a[0]] + (up_to_done(tail) + up_to_done(b)) =~= whole + up_to_done(b));
    }
}

proof fn lemma_read_pieces(pieces: Seq<Seq<u8>>)
    requires
        all_text(pieces),
    ensures
        ({
            let read = read_pieces(pieces);
            let whole = lines(vstd::utf8::decode_utf8(whole_bytes(pieces)));
            &&& vstd::utf8::valid_utf8(whole_bytes(pieces))
            &&& read.events == up_to_done(line_events(whole.complete))
            &&& !has_ended(read.events) ==> read.rest == whole.rest
        }),
    decreases pieces.len(),
{
    let empty = Seq::<char>::empty();
    if pieces.len() == 0 {
        assert(vstd::utf8::decode_utf8(whole_bytes(pieces)) =~= empty);
    } else {
        let first = pieces.drop_last();
        assert forall|i: int| 0 <= i < first.len() implies vstd::utf8::valid_utf8(
            #[trigger] first[i],
        ) by {
            assert(first[i] == pieces[i]);
        }
        lemma_read_pieces(first);
        let before = read_pieces(first);
        let last = pieces.last();
        assert(vstd::utf8::valid_utf8(pieces[pieces.len() - 1]));
        cuts_between_characters_make_no_difference(whole_bytes(first), last);
        let a = vstd::utf8::decode_utf8(whole_bytes(first));
        let b = vstd::utf8::decode_utf8(last);
        pieces_make_no_difference(empty, a, b);
        assert(empty + a =~= a);
        assert(empty + (a + b) =~= a + b);
        lemma_up_to_done_concat(
            line_events(lines(a).complete),
            line_events(lines(lines(a).rest + b).complete),
        );
    }
}

/// Two cuts of one byte stream, each into pieces that are text, give the same
/// events up to the end of the stream.
pub proof fn cuts_give_the_same_events(p: Seq<Seq<u8>>, q: Seq<Seq<u8>>)
    requires
        all_text(p),
        all_text(q),
        whole_bytes(p) == whole_bytes(q),
    ensures
        read_pieces(p).events == read_pieces(q).events,
{
    lemma_read_pieces(p);
    lemma_read_pieces(q);
}

/// What has been done with events: the state after them, and the items that were
/// sent for them.
pub struct Answered {
    pub state: StreamModel,
    pub items: Seq<Seq<char>>,
}

/// What a converter does with events, one after another: `chunk_in` says which
/// chunk is read from a payload, if one is, and `readings` at what each event is
/// read.
pub open spec fn on_events(
    m: StreamModel,
    events: Seq<SseModel>,
    chunk_in: spec_fn(Seq<char>) -> Option<ChatChunk>,
    readings: Seq<Reading>,
) -> Answered
    decreases events.len(),
{
    if events.len() == 0 {
        Answered { state: m, items: Seq::empty() }
    } else {
        let before = on_events(m, events.drop_last(), chunk_in, readings);
        let chunk = match events.last() {
            SseModel::Data(payload) => chunk_in(payload),
            SseModel::Done => None,
        };
        let step = on_event(before.state, events.last(), chunk, readings[events.len() - 1]);
        Answered { state: step.state, items: before.items + sent_for(events.last(), step) }
    }
}

/// The items that a converter sends for an upstream that comes in pieces: the
/// announcement, what the events bring, and the end, whether the upstream
/// announced it or just stopped.
pub open spec fn answer_to(
    m: StreamModel,
    pieces: Seq<Seq<u8>>,
    chunk_in: spec_fn(Seq<char>) -> Option<ChatChunk>,
    readings: Seq<Reading>,
) -> Seq<Seq<char>> {
    let events = read_pieces(pieces).events;
    let begun = on_created(m);
    let answered = on_events(begun.state, events, chunk_in, readings);
    let items = item_of(sse_events(begun.events)) + answered.items;
    if has_ended(events) {
        items
    } else {
        items + sent_for(SseModel::Done, on_end(answered.state))
    }
}

/// Where the upstream is cut makes no difference to what is sent: two cuts of one
/// byte stream, each into pieces that are text, are answered with the same items,
/// where the identifiers and the times are made from the same readings.
pub proof fn cuts_give_the_same_answer(
    model: Seq<char>,
    count: u64,
    now: u64,
    secs: u64,
    p: Seq<Seq<u8>>,
    q: Seq<Seq<u8>>,
    chunk_in: spec_fn(Seq<char>) -> Option<ChatChunk>,
    readings: Seq<Reading>,
)
    requires
        all_text(p),
        all_text(q),
        whole_bytes(p) == whole_bytes(q),
    ensures
        answer_to(initial(model, count, now, secs), p, chunk_in, readings) == answer_to(
            initial(model, count, now, secs),
            q,
            chunk_in,
            readings,
        ),
{
    cuts_give_the_same_events(p, q);
}

/// What follows the last line feed is not read: an upstream that stops in the
/// middle of a line gives the events of its complete lines.
pub proof fn an_incomplete_line_is_not_read(pieces: Seq<Seq<u8>>, tail: Seq<u8>)
    requires
        all_text(pieces),
        vstd::utf8::valid_utf8(tail),
        !vstd::utf8::decode_utf8(tail).contains('\n'),
    ensures
        read_pieces(pieces.push(tail)).events == read_pieces(pieces).events,
{
    let all = pieces.push(tail);
    assert(all.drop_last() =~= pieces);
    let before = read_pieces(pieces);
    if !has_ended(before.events) {
        lemma_read_pieces(pieces);
        let b = vstd::utf8::decode_utf8(tail);
        let whole = vstd::utf8::decode_utf8(whole_bytes(pieces));
        crate::text::lemma_rest_has_no_line_feed(whole);
        let line = before.rest + b;
        assert forall|i: int| 0 <= i < line.len() implies line[i] != '\n' by {
            if i < before.rest.len() {
                assert(before.rest.contains(before.rest[i]));
            } else {
                assert(b.contains(b[i - before.rest.len()]));
            }
        }
        crate::text::lemma_one_line(line);
        assert(up_to_done(line_events(lines(line).complete)) =~= Seq::<SseModel>::empty());
        assert(before.events + Seq::<SseModel>::empty() =~= before.events);
    }
}

} // verus!
