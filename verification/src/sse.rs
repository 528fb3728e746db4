//! Server-sent events: the payloads that a stream of text carries.

use crate::text::lines;
use crate::text::lines_of_concatenation;
use crate::text::split_lines;
use crate::text::str_eq;
use crate::text::strip_prefix;
use crate::text::text_from_utf8_lossy;
use crate::text::texts;
use crate::text::trim;
use crate::text::trimmed;
use crate::text::utf8_lossy;
use vstd::prelude::*;
use vstd::string::StringExecFns;

verus! {

/// The line that ends a stream, with the empty line after it.
pub const DONE_LINE: &'static str = "data: [DONE]\n\n";

/// What one line of a stream says.
pub enum SseEvent {
    /// A payload.
    Data(String),
    /// The end of the stream.
    Done,
}

/// What one line of a stream says.
pub enum SseModel {
    Data(Seq<char>),
    Done,
}

impl View for SseEvent {
    type V = SseModel;

    open spec fn view(&self) -> SseModel {
        match *self {
            SseEvent::Data(payload) => SseModel::Data(payload@),
            SseEvent::Done => SseModel::Done,
        }
    }
}

/// What the events of a sequence say.
pub open spec fn sse_views(s: Seq<SseEvent>) -> Seq<SseModel> {
    s.map_values(|e: SseEvent| e@)
}

/// What a line says: a line that does not begin with `data: ` says nothing, and
/// white space around a payload does not count.
pub open spec fn line_event(line: Seq<char>) -> Option<SseModel> {
    if "data: "@.is_prefix_of(line) {
        let payload = trimmed(line.skip("data: "@.len() as int));
        if payload == "[DONE]"@ {
            Some(SseModel::Done)
        } else {
            Some(SseModel::Data(payload))
        }
    } else {
        None
    }
}

/// What an event is as a sequence.
pub open spec fn as_sequence(e: Option<SseModel>) -> Seq<SseModel> {
    match e {
        Some(m) => seq![m],
        None => Seq::empty(),
    }
}

/// What lines say, one after another.
pub open spec fn line_events(ls: Seq<Seq<char>>) -> Seq<SseModel>
    decreases ls.len(),
{
    if ls.len() == 0 {
        Seq::empty()
    } else {
        as_sequence(line_event(ls[0])) + line_events(ls.drop_first())
    }
}

/// The events up to the first end of the stream, which is the last of them.
pub open spec fn up_to_done(events: Seq<SseModel>) -> Seq<SseModel>
    decreases events.len(),
{
    if events.len() == 0 {
        Seq::empty()
    } else if events[0] is Done {
        seq![SseModel::Done]
    } else {
        seq![events[0]] + up_to_done(events.drop_first())
    }
}

/// Reads one line.
pub fn read_line(line: &str) -> (r: Option<SseEvent>)
    ensures
        match r {
            Some(e) => line_event(line@) == Some(e@),
            None => line_event(line@) is None,
        },
{
    match strip_prefix(line, "data: ") {
        Some(data) => {
            proof {
                assert("data: "@.is_prefix_of(line@)) by {
                    assert(line@.subrange(0, "data: "@.len() as int) =~= "data: "@);
                }
                assert(line@.skip("data: "@.len() as int) =~= data@);
            }
            let payload = trim(data);
            if str_eq(payload, "[DONE]") {
                Some(SseEvent::Done)
            } else {
                Some(SseEvent::Data(payload.to_string()))
            }
        },
        None => None,
    }
}

/// Reads lines up to the end of the stream, or to the last line.
pub fn read_lines(ls: &Vec<String>) -> (r: Vec<SseEvent>)
    ensures
        sse_views(r@) == up_to_done(line_events(texts(ls@))),
{
    let mut out: Vec<SseEvent> = Vec::new();
    let mut i: usize = 0;
    let ghost all = texts(ls@);
    proof {
        assert(all.skip(0) =~= all);
        assert(sse_views(out@) + up_to_done(line_events(all.skip(0))) =~= up_to_done(
            line_events(all),
        ));
    }
    while i < ls.len()
        invariant
            i <= ls.len(),
            all == texts(ls@),
            sse_views(out@) + up_to_done(line_events(all.skip(i as int))) == up_to_done(
                line_events(all),
            ),
        decreases ls.len() - i,
    {
        let ghost before = sse_views(out@);
        let ghost left = all.skip(i as int);
        let ghost after = line_events(all.skip(i + 1));
        proof {
            assert(left.drop_first() =~= all.skip(i + 1));
            assert(left[0] == ls@[i as int]@);
        }
        match read_line(ls[i].as_str()) {
            Some(e) => {
                let done = matches!(e, SseEvent::Done);
                let ghost said = e@;
                proof {
                    let both = seq![said] + after;
                    assert(both.drop_first() =~= after);
                    assert(both[0] == said);
                }
                out.push(e);
                proof {
                    assert(sse_views(out@) =~= before.push(said));
                    if !done {
                        assert(before.push(said) + up_to_done(after) =~= before + (seq![said]
                            + up_to_done(after)));
                    } else {
                        assert(before.push(said) =~= before + seq![SseModel::Done]);
                    }
                }
                if done {
                    return out;
                }
            },
            None => {
                proof {
                    assert(Seq::<SseModel>::empty() + after =~= after);
                }
            },
        }
        i = i + 1;
    }
    proof {
        assert(all.skip(i as int).len() == 0);
        assert(sse_views(out@) + Seq::<SseModel>::empty() =~= sse_views(out@));
    }
    out
}

/// Cuts a stream of text into its payloads, whatever the pieces it comes in.
pub struct SseDecoder {
    rest: String,
}

impl View for SseDecoder {
    type V = Seq<char>;

    /// What has come since the last line feed.
    closed spec fn view(&self) -> Seq<char> {
        self.rest@
    }
}

impl SseDecoder {
    /// A decoder to which nothing has come.
    pub fn new() -> (r: Self)
        ensures
            r@ == Seq::<char>::empty(),
    {
        SseDecoder { rest: String::new() }
    }

    /// Takes the next piece of text, and gives out what the lines say that it
    /// completes, up to the end of the stream.
    pub fn feed_text(&mut self, text: &str) -> (r: Vec<SseEvent>)
        ensures
            sse_views(r@) == up_to_done(line_events(lines(old(self)@ + text@).complete)),
            final(self)@ == lines(old(self)@ + text@).rest,
    {
        let mut all = self.rest.clone();
        all.append(text);
        let (complete, rest) = split_lines(all.as_str());
        self.rest = rest;
        read_lines(&complete)
    }

    /// Takes the next piece of the byte stream.
    pub fn feed(&mut self, bytes: &[u8]) -> (r: Vec<SseEvent>)
        ensures
            sse_views(r@) == up_to_done(
                line_events(lines(old(self)@ + utf8_lossy(bytes@)).complete),
            ),
            final(self)@ == lines(old(self)@ + utf8_lossy(bytes@)).rest,
            vstd::utf8::valid_utf8(bytes@) ==> utf8_lossy(bytes@) == vstd::utf8::decode_utf8(
                bytes@,
            ),
    {
        let text = text_from_utf8_lossy(bytes);
        self.feed_text(text.as_str())
    }
}

pub proof fn lemma_line_events_concat(a: Seq<Seq<char>>, b: Seq<Seq<char>>)
    ensures
        line_events(a + b) == line_events(a) + line_events(b),
    decreases a.len(),
{
    if a.len() == 0 {
        assert(a + b =~= b);
        assert(line_events(a) + line_events(b) =~= line_events(b));
    } else {
        assert((a + b).drop_first() =~= a.drop_first() + b);
        lemma_line_events_concat(a.drop_first(), b);
        assert(line_events(a + b) =~= line_events(a) + line_events(b));
    }
}

/// The pieces that a text comes in make no difference: what a decoder gives out
/// for two pieces is what it gives out for the two as one.
pub proof fn pieces_make_no_difference(rest: Seq<char>, a: Seq<char>, b: Seq<char>)
    ensures
        ({
            let first = lines(rest + a);
            let second = lines(first.rest + b);
            let whole = lines(rest + (a + b));
            &&& line_events(whole.complete) == line_events(first.complete) + line_events(
                second.complete,
            )
            &&& whole.rest == second.rest
        }),
{
    assert(rest + (a + b) =~= (rest + a) + b);
    lines_of_concatenation(rest + a, b);
    lemma_line_events_concat(lines(rest + a).complete, lines(lines(rest + a).rest + b).complete);
}

/// A byte stream that is cut between two characters says the same as the whole.
pub proof fn cuts_between_characters_make_no_difference(a: Seq<u8>, b: Seq<u8>)
    requires
        vstd::utf8::valid_utf8(a),
        vstd::utf8::valid_utf8(b),
    ensures
        vstd::utf8::valid_utf8(a + b),
        vstd::utf8::decode_utf8(a + b) == vstd::utf8::decode_utf8(a) + vstd::utf8::decode_utf8(b),
{
    vstd::utf8::valid_utf8_concat(a, b);
    let n = a.len() as int;
    let all = a + b;
    if b.len() == 0 {
        assert(all =~= a);
        assert(vstd::utf8::decode_utf8(a) + vstd::utf8::decode_utf8(b) =~= vstd::utf8::decode_utf8(
            a,
        ));
    } else {
        assert(all.subrange(0, n) =~= a);
        assert(all.subrange(n, all.len() as int) =~= b);
        assert(all[n] == b[0]);
        vstd::utf8::is_char_boundary_iff_is_leading_byte(all, n);
        vstd::utf8::decode_utf8_split(all, n);
    }
}

} // verus!
