//! The converter of one answer: from the bytes of the upstream to the text of
//! the client.

use crate::ids::clock_nanos;
use crate::ids::clock_secs;
use crate::ids::is_clock_nanos;
use crate::ids::is_clock_secs;
use crate::ids::IdSource;
use crate::sse::line_events;
use crate::sse::sse_views;
use crate::sse::up_to_done;
use crate::sse::SseDecoder;
use crate::sse::SseEvent;
use crate::sse::SseModel;
use crate::sse::DONE_LINE;
use crate::text::lines;
use crate::text::texts;
use crate::text::utf8_lossy;
use crate::translate::chat::ChatChunk;
use crate::translate::events::one_line_each;
use crate::translate::events::sse_events;
use crate::translate::stream::ChatToResponsesStream;
use crate::translate::stream_model::initial;
use crate::translate::stream_model::no_step;
use crate::translate::stream_model::on_chunk_at;
use crate::translate::stream_model::on_created;
use crate::translate::stream_model::on_end;
use crate::translate::stream_model::on_failed;
use crate::translate::stream_model::Reading;
use crate::translate::stream_model::Step;
use crate::translate::stream_model::StreamModel;
use vstd::prelude::*;
use vstd::string::StringExecFns;

verus! {

/// The state of a converter.
pub struct ConverterModel {
    pub stream: StreamModel,
    /// What has come of a line that is not complete.
    pub rest: Seq<char>,
}

/// What is sent to the client next, each item on its own.
pub struct Output {
    pub items: Vec<String>,
    /// Whether nothing follows.
    pub last: bool,
}

/// Converts one answer. Whoever has the connections sends the items that `start`
/// returns, reads a piece of the upstream, hands it to `read`, and hands each event
/// to `take_event`, a payload together with the chunk that was read from it. Where
/// the upstream cannot be read further, `fail` says what is sent, and where it
/// has ended, `finish`.
pub struct StreamConverter {
    stream: ChatToResponsesStream,
    decoder: SseDecoder,
}

impl View for StreamConverter {
    type V = ConverterModel;

    closed spec fn view(&self) -> ConverterModel {
        ConverterModel { stream: self.stream@, rest: self.decoder@ }
    }
}

/// What a failure to read from the upstream is reported as.
pub open spec fn read_error(error: Seq<char>) -> Seq<char> {
    "upstream read error: "@ + error
}

/// A chunk that was read from a payload, where one was.
pub open spec fn chunk_view(chunk: Option<&ChatChunk>) -> Option<ChatChunk> {
    match chunk {
        Some(c) => Some(*c),
        None => None,
    }
}

/// What an event does, read at `at`. The end of the stream ends the answer; a
/// payload from which no chunk was read is passed over.
pub open spec fn on_event(
    m: StreamModel,
    e: SseModel,
    chunk: Option<ChatChunk>,
    at: Reading,
) -> Step {
    match e {
        SseModel::Done => on_end(m),
        SseModel::Data(_) => match chunk {
            Some(c) => on_chunk_at(m, c, at),
            None => no_step(m),
        },
    }
}

/// A text as an item that is sent; an empty one is not sent.
pub open spec fn item_of(text: Seq<char>) -> Seq<Seq<char>> {
    if text.len() == 0 {
        Seq::empty()
    } else {
        seq![text]
    }
}

/// The items that are sent for an event: what it brings, and after it the end
/// line, where the event ends the stream.
pub open spec fn sent_for(e: SseModel, step: Step) -> Seq<Seq<char>> {
    if e is Done {
        item_of(sse_events(step.events)).push(DONE_LINE@)
    } else {
        item_of(sse_events(step.events))
    }
}

/// Makes an item of a text.
fn make_item(text: String) -> (r: Vec<String>)
    ensures
        texts(r@) == item_of(text@),
{
    let mut items: Vec<String> = Vec::new();
    if !text.as_str().is_empty() {
        items.push(text);
    }
    assert(texts(items@) =~= item_of(text@));
    items
}

/// Adds the end line to items.
fn add_end_line(items: &mut Vec<String>)
    ensures
        texts(final(items)@) == texts(old(items)@).push(DONE_LINE@),
{
    items.push(DONE_LINE.to_string());
    assert(texts(items@) =~= texts(old(items)@).push(DONE_LINE@));
}

/// How many identifiers the process has made after an event.
pub open spec fn count_after(e: SseModel, chunk: Option<ChatChunk>, step: Step, count: u64) -> u64 {
    if e is Data && chunk is Some {
        step.state.id_count
    } else {
        count
    }
}

impl StreamConverter {
    /// A converter whose answer carries the name `model`, made from the clock
    /// readings `now` and `secs`. Its identifiers come from `ids`.
    pub fn new_at(model: String, ids: &mut IdSource, now: u64, secs: u64) -> (r: Self)
        ensures
            r@ == (ConverterModel {
                stream: initial(model@, old(ids).count, now, secs),
                rest: Seq::empty(),
            }),
            final(ids).count == r@.stream.id_count,
    {
        StreamConverter {
            stream: ChatToResponsesStream::new_at(model, ids, now, secs),
            decoder: SseDecoder::new(),
        }
    }

    /// A converter whose answer carries the name `model`. Its identifiers come
    /// from `ids`.
    pub fn new(model: String, ids: &mut IdSource) -> (r: Self)
        ensures
            exists|now: u64, secs: u64|
                is_clock_nanos(now) && is_clock_secs(secs) && r@.stream == #[trigger] initial(
                    model@,
                    old(ids).count,
                    now,
                    secs,
                ),
            r@.rest == Seq::<char>::empty(),
            final(ids).count == r@.stream.id_count,
    {
        let now: u64 = clock_nanos();
        let secs: u64 = clock_secs();
        Self::new_at(model, ids, now, secs)
    }

    /// Announces the response.
    pub fn start(&mut self) -> (r: Vec<String>)
        ensures
            final(self)@ == (ConverterModel {
                stream: on_created(old(self)@.stream).state,
                ..old(self)@
            }),
            texts(r@) == item_of(sse_events(on_created(old(self)@.stream).events)),
            one_line_each(on_created(old(self)@.stream).events),
    {
        make_item(self.stream.ensure_created())
    }

    /// Takes the next bytes of the upstream, and gives out what the lines say
    /// that they complete, up to the end of the stream.
    pub fn read(&mut self, bytes: &[u8]) -> (r: Vec<SseEvent>)
        ensures
            sse_views(r@) == up_to_done(
                line_events(lines(old(self)@.rest + utf8_lossy(bytes@)).complete),
            ),
            final(self)@ == (ConverterModel {
                rest: lines(old(self)@.rest + utf8_lossy(bytes@)).rest,
                ..old(self)@
            }),
            vstd::utf8::valid_utf8(bytes@) ==> utf8_lossy(bytes@) == vstd::utf8::decode_utf8(
                bytes@,
            ),
    {
        self.decoder.feed(bytes)
    }

    /// Does what an event says, at the time `now`. The end of the stream ends the
    /// answer; a payload from which no chunk was read is passed over. Identifiers
    /// come from `ids`.
    pub fn take_event_at(
        &mut self,
        event: &SseEvent,
        chunk: Option<&ChatChunk>,
        ids: &mut IdSource,
        now: u64,
    ) -> (r: Output)
        ensures
            ({
                let at = Reading { now, count: old(ids).count };
                let step = on_event(old(self)@.stream, event@, chunk_view(chunk), at);
                &&& final(self)@ == (ConverterModel { stream: step.state, ..old(self)@ })
                &&& final(ids).count == count_after(
                    event@,
                    chunk_view(chunk),
                    step,
                    old(ids).count,
                )
                &&& texts(r.items@) == sent_for(event@, step)
                &&& one_line_each(step.events)
                &&& r.last == (event@ is Done)
            }),
    {
        match event {
            SseEvent::Done => Output { items: self.finish(), last: true },
            SseEvent::Data(_) => match chunk {
                Some(c) => Output {
                    items: make_item(self.stream.handle_chunk_at(c, ids, now)),
                    last: false,
                },
                None => {
                    let items: Vec<String> = Vec::new();
                    assert(texts(items@) =~= Seq::<Seq<char>>::empty());
                    Output { items, last: false }
                },
            },
        }
    }

    /// Does what an event says. Identifiers come from `ids`.
    pub fn take_event(
        &mut self,
        event: &SseEvent,
        chunk: Option<&ChatChunk>,
        ids: &mut IdSource,
    ) -> (r: Output)
        ensures
            exists|at: Reading|
                {
                    let step = #[trigger] on_event(
                        old(self)@.stream,
                        event@,
                        chunk_view(chunk),
                        at,
                    );
                    &&& is_clock_nanos(at.now)
                    &&& at.count == old(ids).count
                    &&& final(self)@ == (ConverterModel { stream: step.state, ..old(self)@ })
                    &&& final(ids).count == count_after(
                        event@,
                        chunk_view(chunk),
                        step,
                        old(ids).count,
                    )
                    &&& texts(r.items@) == sent_for(event@, step)
                    &&& one_line_each(step.events)
                },
            r.last == (event@ is Done),
    {
        let now: u64 = clock_nanos();
        let ghost at = Reading { now, count: ids.count };
        let ghost step = on_event(self@.stream, event@, chunk_view(chunk), at);
        self.take_event_at(event, chunk, ids, now)
    }

    /// Reports that the upstream could not be read further, and ends the answer.
    pub fn fail(&mut self, error: &str) -> (r: Vec<String>)
        ensures
            final(self)@ == (ConverterModel {
                stream: on_failed(old(self)@.stream, read_error(error@)).state,
                ..old(self)@
            }),
            texts(r@) == seq![
                sse_events(on_failed(old(self)@.stream, read_error(error@)).events),
                DONE_LINE@,
            ],
            one_line_each(on_failed(old(self)@.stream, read_error(error@)).events),
    {
        let mut message = "upstream read error: ".to_string();
        message.append(error);
        let mut items: Vec<String> = Vec::new();
        items.push(self.stream.emit_failed(message.as_str()));
        items.push(DONE_LINE.to_string());
        assert(texts(items@) =~= seq![items[0]@, items[1]@]);
        items
    }

    /// Completes the response where it is not complete, and ends the answer.
    pub fn finish(&mut self) -> (r: Vec<String>)
        ensures
            final(self)@ == (ConverterModel {
                stream: on_end(old(self)@.stream).state,
                ..old(self)@
            }),
            texts(r@) == item_of(sse_events(on_end(old(self)@.stream).events)).push(DONE_LINE@),
            one_line_each(on_end(old(self)@.stream).events),
    {
        let mut items = make_item(self.stream.end());
        add_end_line(&mut items);
        items
    }
}

} // verus!
