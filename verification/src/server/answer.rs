//! The answer that is not streamed: the chunks of the upstream put together.

use crate::ids::clock_nanos;
use crate::ids::clock_secs;
use crate::ids::id_chars;
use crate::ids::is_clock_nanos;
use crate::ids::is_clock_secs;
use crate::ids::rand_id_from;
use crate::json::array_of;
use crate::json::array_value;
use crate::json::elements;
use crate::json::get;
use crate::json::json;
use crate::json::json_from_str;
use crate::json::json_seq;
use crate::json::lemma_json_seq_push;
use crate::json::member;
use crate::json::member_of;
use crate::json::null_value;
use crate::json::object_value;
use crate::json::put;
use crate::json::text_at;
use crate::json::text_of;
use crate::json::text_value;
use crate::json::u64_value;
use crate::json::value_from_str;
use crate::json::value_view;
use crate::json::Json;
use crate::server::answer_laws::arguments_for;
use crate::server::answer_laws::content_brought;
use crate::server::reply::error_body;
use crate::server::reply::error_response;
use crate::server::reply::json_reply;
use crate::server::reply::json_response;
use crate::server::reply::Reply;
use crate::server::reply::ReplyModel;
use crate::sse::line_events;
use crate::sse::read_lines;
use crate::sse::sse_views;
use crate::sse::up_to_done;
use crate::sse::SseEvent;
use crate::sse::SseModel;
use crate::text::lines;
use crate::text::split_lines;
use crate::text::text_from_utf8_lossy;
use crate::text::texts;
use crate::text::utf8_lossy;
use crate::translate::calls::keys_in_order;
use crate::translate::items::make_call;
use crate::translate::items::make_message_done;
use crate::translate::stream_model::call_item;
use crate::translate::stream_model::in_order;
use crate::translate::stream_model::message_done_item;
use serde_json::Map as JsonMap;
use serde_json::Value;
use std::collections::BTreeMap;
use vstd::prelude::*;
use vstd::string::StringExecFns;

verus! {

/// The largest answer that is put together, in bytes.
pub const MAX_ANSWER_BYTES: usize = 16777216;

/// A tool call, as far as its pieces have come.
pub struct CallParts {
    pub call_id: String,
    pub name: String,
    pub arguments: String,
}

/// A tool call, as far as its pieces have come.
pub struct CallModel {
    pub call_id: Seq<char>,
    pub name: Seq<char>,
    pub arguments: Seq<char>,
}

impl View for CallParts {
    type V = CallModel;

    open spec fn view(&self) -> CallModel {
        CallModel { call_id: self.call_id@, name: self.name@, arguments: self.arguments@ }
    }
}

/// An answer, as far as its chunks have come.
pub struct Answer {
    pub content: String,
    /// The tool calls, by the index that the upstream gave them.
    pub calls: BTreeMap<u32, CallParts>,
    /// The token count, as the upstream gave it.
    pub usage: Option<Value>,
}

/// An answer, as far as its chunks have come.
pub struct AnswerModel {
    pub content: Seq<char>,
    pub calls: Map<u32, CallModel>,
    pub usage: Option<Json>,
}

/// What tool calls hold.
pub open spec fn parts_view(m: Map<u32, CallParts>) -> Map<u32, CallModel> {
    m.map_values(|c: CallParts| c@)
}

impl View for Answer {
    type V = AnswerModel;

    open spec fn view(&self) -> AnswerModel {
        AnswerModel {
            content: self.content@,
            calls: parts_view(self.calls@),
            usage: match self.usage {
                Some(u) => Some(json(u)),
                None => None,
            },
        }
    }
}

/// An answer of which nothing has come.
pub open spec fn no_answer() -> AnswerModel {
    AnswerModel { content: Seq::empty(), calls: Map::empty(), usage: None }
}

/// A tool call of which nothing has come.
pub open spec fn no_parts() -> CallModel {
    CallModel { call_id: Seq::empty(), name: Seq::empty(), arguments: Seq::empty() }
}

/// The index of a piece of a tool call, cut to 32 bits; 0 where it has none.
pub open spec fn piece_index(piece: Json) -> u32 {
    match piece.get("index"@) {
        Some(j) => match j.as_u64() {
            Some(n) => (n % 0x1_0000_0000) as u32,
            None => 0,
        },
        None => 0,
    }
}

/// `new`, where it is there and is not empty; else `old_text`.
pub open spec fn replaced(old_text: Seq<char>, new: Option<Seq<char>>) -> Seq<char> {
    if new is Some && new->0.len() > 0 {
        new->0
    } else {
        old_text
    }
}

/// `s`, followed by `more` where it is there.
pub open spec fn extended(s: Seq<char>, more: Option<Seq<char>>) -> Seq<char> {
    match more {
        Some(t) => s + t,
        None => s,
    }
}

/// A tool call with one more piece: a later id or name replaces an earlier one,
/// and the arguments are put together.
pub open spec fn with_piece(call: CallModel, piece: Json) -> CallModel {
    let function = piece.get("function"@);
    CallModel {
        call_id: replaced(call.call_id, text_of(piece.get("id"@))),
        name: replaced(call.name, text_of(member_of(function, "name"@))),
        arguments: extended(call.arguments, text_of(member_of(function, "arguments"@))),
    }
}

/// The call at `index`.
pub open spec fn call_at(calls: Map<u32, CallModel>, index: u32) -> CallModel {
    if calls.contains_key(index) {
        calls[index]
    } else {
        no_parts()
    }
}

/// Tool calls with more pieces.
pub open spec fn with_pieces(calls: Map<u32, CallModel>, pieces: Seq<Json>) -> Map<u32, CallModel>
    decreases pieces.len(),
{
    if pieces.len() == 0 {
        calls
    } else {
        let before = with_pieces(calls, pieces.drop_last());
        let index = piece_index(pieces.last());
        before.insert(index, with_piece(call_at(before, index), pieces.last()))
    }
}

/// What the first choice of a chunk brings.
pub open spec fn first_delta(chunk: Json) -> Option<Json> {
    match array_of(chunk.get("choices"@)) {
        Some(choices) => if choices.len() > 0 {
            choices[0].get("delta"@)
        } else {
            None
        },
        None => None,
    }
}

/// An answer with one more chunk.
pub open spec fn with_chunk(a: AnswerModel, chunk: Json) -> AnswerModel {
    let delta = first_delta(chunk);
    AnswerModel {
        content: extended(a.content, text_of(member_of(delta, "content"@))),
        calls: match array_of(member_of(delta, "tool_calls"@)) {
            Some(pieces) => with_pieces(a.calls, pieces),
            None => a.calls,
        },
        usage: match chunk.get("usage"@) {
            Some(u) => Some(u),
            None => a.usage,
        },
    }
}

/// An answer with one more payload; one that is no JSON is passed over.
pub open spec fn with_payload(a: AnswerModel, e: SseModel) -> AnswerModel {
    match e {
        SseModel::Data(payload) => match json_from_str(payload) {
            Ok(chunk) => with_chunk(a, chunk),
            Err(_) => a,
        },
        SseModel::Done => a,
    }
}

/// An answer with more payloads.
pub open spec fn with_payloads(a: AnswerModel, events: Seq<SseModel>) -> AnswerModel
    decreases events.len(),
{
    if events.len() == 0 {
        a
    } else {
        with_payload(with_payloads(a, events.drop_last()), events.last())
    }
}

/// What a whole text says: the last line counts though no line feed ends it.
pub open spec fn text_events(text: Seq<char>) -> Seq<SseModel> {
    up_to_done(line_events(lines(text).complete.push(lines(text).rest)))
}

/// The answer that a whole text holds.
pub open spec fn answer_in(text: Seq<char>) -> AnswerModel {
    with_payloads(no_answer(), text_events(text))
}

/// The identifier with `prefix` and sixteen characters from the number `n`.
pub open spec fn short_id(prefix: Seq<char>, n: u64) -> Seq<char> {
    prefix + id_chars(n, 16)
}

/// The items of tool calls in the order of `indices`, with identifiers from the
/// numbers `seeds`.
pub open spec fn call_items(calls: Map<u32, CallModel>, indices: Seq<u32>, seeds: Seq<u64>) -> Seq<
    Json,
> {
    Seq::new(
        indices.len(),
        |i: int|
            call_item(
                short_id("fc_"@, seeds[i]),
                calls[indices[i]].call_id,
                calls[indices[i]].name,
                calls[indices[i]].arguments,
                "completed"@,
            ),
    )
}

/// How many items an answer has: its message, where it is not empty, and its
/// tool calls.
pub open spec fn item_count(a: AnswerModel) -> nat {
    in_order(a.calls.dom()).len() + if a.content.len() > 0 {
        1nat
    } else {
        0nat
    }
}

/// The items of an answer, with identifiers from the numbers `seeds`: its
/// message, then its tool calls in the order of their indices.
pub open spec fn output_items(a: AnswerModel, seeds: Seq<u64>) -> Seq<Json> {
    let indices = in_order(a.calls.dom());
    if a.content.len() > 0 {
        seq![message_done_item(short_id("msg_"@, seeds[0]), a.content)] + call_items(
            a.calls,
            indices,
            seeds.skip(1),
        )
    } else {
        call_items(a.calls, indices, seeds)
    }
}

/// The response that carries an answer. The first of `seeds` gives the
/// identifier of the response, the others those of its items.
pub open spec fn answer_body(a: AnswerModel, model: Seq<char>, seeds: Seq<u64>, secs: u64) -> Json {
    Json::Object(
        map![
            "id"@ => Json::Str(short_id("resp_"@, seeds[0])),
            "object"@ => Json::Str("response"@),
            "created_at"@ => Json::Unsigned(secs),
            "status"@ => Json::Str("completed"@),
            "model"@ => Json::Str(model),
            "output"@ => Json::Array(output_items(a, seeds.skip(1))),
            "usage"@ => match a.usage {
                Some(u) => u,
                None => Json::Null,
            },
        ],
    )
}

impl CallParts {
    /// Takes one more piece.
    fn take_piece(&mut self, piece: &Value)
        ensures
            final(self)@ == with_piece(old(self)@, json(*piece)),
    {
        if let Some(id) = text_at(Some(piece), "id") {
            if !id.is_empty() {
                self.call_id = id.to_string();
            }
        }
        let function = get(piece, "function");
        if let Some(name) = text_at(function, "name") {
            if !name.is_empty() {
                self.name = name.to_string();
            }
        }
        if let Some(arguments) = text_at(function, "arguments") {
            self.arguments.append(arguments);
        }
    }
}

/// Takes the tool call at `index` out of the map; an empty one where it is not
/// there.
fn take_parts(m: &mut BTreeMap<u32, CallParts>, index: u32) -> (r: CallParts)
    ensures
        r@ == call_at(parts_view(old(m)@), index),
        parts_view(final(m)@) == parts_view(old(m)@).remove(index),
{
    broadcast use vstd::laws_cmp::group_laws_cmp;

    let taken = m.remove(&index);
    proof {
        assert(parts_view(m@) =~= parts_view(old(m)@).remove(index));
    }
    match taken {
        Some(c) => c,
        None => CallParts {
            call_id: String::new(),
            name: String::new(),
            arguments: String::new(),
        },
    }
}

/// Puts a tool call at `index`.
fn put_parts(m: &mut BTreeMap<u32, CallParts>, index: u32, c: CallParts)
    ensures
        parts_view(final(m)@) == parts_view(old(m)@).insert(index, c@),
{
    broadcast use vstd::laws_cmp::group_laws_cmp;

    let _ = m.insert(index, c);
    proof {
        assert(parts_view(m@) =~= parts_view(old(m)@).insert(index, c@));
    }
}

/// Lends the tool call at `index`.
fn parts_at(m: &BTreeMap<u32, CallParts>, index: u32) -> (r: Option<&CallParts>)
    ensures
        match r {
            Some(c) => parts_view(m@).contains_key(index) && parts_view(m@)[index] == c@,
            None => !parts_view(m@).contains_key(index),
        },
{
    broadcast use vstd::laws_cmp::group_laws_cmp;

    m.get(&index)
}

/// Reads the index of a piece of a tool call.
fn read_index(piece: &Value) -> (r: u32)
    ensures
        r == piece_index(json(*piece)),
{
    match get(piece, "index") {
        Some(j) => match j.as_u64() {
            Some(n) => (n % 0x1_0000_0000) as u32,
            None => 0,
        },
        None => 0,
    }
}

impl Answer {
    /// An answer of which nothing has come.
    pub fn new() -> (r: Self)
        ensures
            r@ == no_answer(),
    {
        let r = Answer { content: String::new(), calls: BTreeMap::new(), usage: None };
        proof {
            assert(r@.calls =~= Map::<u32, CallModel>::empty());
        }
        r
    }

    fn take_pieces(&mut self, pieces: &Vec<Value>)
        ensures
            final(self)@ == (AnswerModel {
                calls: with_pieces(old(self)@.calls, json_seq(pieces@)),
                ..old(self)@
            }),
    {
        let ghost before = self@;
        let ghost all = json_seq(pieces@);
        proof {
            assert(all.take(0) =~= Seq::<Json>::empty());
        }
        let mut i: usize = 0;
        while i < pieces.len()
            invariant
                i <= pieces.len(),
                all == json_seq(pieces@),
                self@ == (AnswerModel {
                    calls: with_pieces(before.calls, all.take(i as int)),
                    ..before
                }),
            decreases pieces.len() - i,
        {
            let piece = &pieces[i];
            let index: u32 = read_index(piece);
            let mut parts = take_parts(&mut self.calls, index);
            parts.take_piece(piece);
            put_parts(&mut self.calls, index, parts);
            proof {
                let so_far = with_pieces(before.calls, all.take(i as int));
                let next = all.take(i + 1);
                assert(next.drop_last() =~= all.take(i as int));
                assert(next.last() == json(pieces@[i as int]));
                assert(self@.calls =~= so_far.insert(index, parts@));
            }
            i = i + 1;
        }
        proof {
            assert(all.take(all.len() as int) =~= all);
        }
    }

    /// Takes one more chunk.
    pub fn take_chunk(&mut self, chunk: &Value)
        ensures
            final(self)@ == with_chunk(old(self)@, json(*chunk)),
    {
        let delta = delta_of(chunk);
        if let Some(content) = text_at(delta, "content") {
            self.content.append(content);
        }
        if let Some(pieces) = elements(member(delta, "tool_calls")) {
            self.take_pieces(pieces);
        }
        if let Some(usage) = get(chunk, "usage") {
            self.usage = Some(usage.clone());
        }
    }

    /// Takes one more payload; one that is no JSON is passed over.
    fn take_payload(&mut self, e: &SseEvent)
        ensures
            final(self)@ == with_payload(old(self)@, e@),
    {
        if let SseEvent::Data(payload) = e {
            if let Ok(chunk) = value_from_str(payload.as_str()) {
                self.take_chunk(&chunk);
            }
        }
    }
}

/// Lends what the first choice of a chunk brings.
fn delta_of(chunk: &Value) -> (r: Option<&Value>)
    ensures
        value_view(r) == first_delta(json(*chunk)),
{
    match elements(get(chunk, "choices")) {
        Some(choices) => if choices.len() > 0 {
            get(&choices[0], "delta")
        } else {
            None
        },
        None => None,
    }
}

/// Reads the answer that a whole text holds.
pub fn read_answer(text: &str) -> (r: Answer)
    ensures
        r@ == answer_in(text@),
{
    let (complete, rest) = split_lines(text);
    let mut all = complete;
    all.push(rest);
    proof {
        assert(texts(all@) =~= lines(text@).complete.push(lines(text@).rest));
    }
    let events = read_lines(&all);
    let ghost said = sse_views(events@);
    let mut answer = Answer::new();
    let mut i: usize = 0;
    proof {
        assert(said.take(0) =~= Seq::<SseModel>::empty());
    }
    while i < events.len()
        invariant
            i <= events.len(),
            said == sse_views(events@),
            answer@ == with_payloads(no_answer(), said.take(i as int)),
        decreases events.len() - i,
    {
        answer.take_payload(&events[i]);
        proof {
            let next = said.take(i + 1);
            assert(next.drop_last() =~= said.take(i as int));
            assert(next.last() == events@[i as int]@);
        }
        i = i + 1;
    }
    proof {
        assert(said.take(said.len() as int) =~= said);
    }
    answer
}

/// Makes the identifier with `prefix` and sixteen characters from the number `n`.
fn make_short_id(prefix: &str, n: u64) -> (r: String)
    ensures
        r@ == short_id(prefix@, n),
{
    let mut out = prefix.to_string();
    out.append(rand_id_from(n).as_str());
    out
}

/// Makes the items of an answer.
fn make_output(answer: &Answer, seeds: &Vec<u64>) -> (r: Vec<Value>)
    requires
        seeds@.len() == 1 + item_count(answer@),
    ensures
        json_seq(r@) == output_items(answer@, seeds@.skip(1)),
{
    let mut output: Vec<Value> = Vec::new();
    let mut next: usize = 1;
    let indices = keys_in_order(&answer.calls);
    let ghost a = answer@;
    proof {
        assert(a.calls.dom() =~= answer.calls@.dom());
        assert(json_seq(output@) =~= Seq::<Json>::empty());
    }
    if !answer.content.as_str().is_empty() {
        let id = make_short_id("msg_", seeds[1]);
        output.push(make_message_done(id.as_str(), answer.content.as_str()));
        next = 2;
    }
    let ghost first = json_seq(output@);
    let ghost tail = seeds@.skip(next as int);
    proof {
        if a.content.len() > 0 {
            assert(first =~= seq![
                message_done_item(short_id("msg_"@, seeds@.skip(1)[0]), a.content),
            ]);
            assert(seeds@.skip(1).skip(1) =~= tail);
        }
        assert(first + call_items(a.calls, indices@, tail) =~= output_items(a, seeds@.skip(1)));
        assert(call_items(a.calls, indices@, tail).take(0) =~= Seq::<Json>::empty());
        assert(first + call_items(a.calls, indices@, tail).take(0) =~= first);
    }
    let ghost items = call_items(a.calls, indices@, tail);
    let mut i: usize = 0;
    while i < indices.len()
        invariant
            i <= indices.len(),
            next + indices.len() == seeds.len(),
            a == answer@,
            indices@.to_set() == a.calls.dom(),
            tail == seeds@.skip(next as int),
            items == call_items(a.calls, indices@, tail),
            items.len() == indices@.len(),
            json_seq(output@) == first + items.take(i as int),
        decreases indices.len() - i,
    {
        let index: u32 = indices[i];
        proof {
            assert(indices@.to_set().contains(index));
            assert(a.calls.contains_key(index));
        }
        if let Some(c) = parts_at(&answer.calls, index) {
            let ghost before = output@;
            let id = make_short_id("fc_", seeds[next + i]);
            let item = make_call(
                id.as_str(),
                c.call_id.as_str(),
                c.name.as_str(),
                c.arguments.as_str(),
                "completed",
            );
            output.push(item);
            proof {
                lemma_json_seq_push(before, item);
                assert(tail[i as int] == seeds@[next + i]);
                assert(items[i as int] == json(item));
                assert(items.take(i + 1) =~= items.take(i as int).push(items[i as int]));
                assert(json_seq(output@) =~= first + items.take(i + 1));
            }
        }
        i = i + 1;
    }
    proof {
        assert(items.take(items.len() as int) =~= items);
    }
    output
}

/// The reply that carries an answer. The first of `seeds` gives the identifier
/// of the response, the others those of its items.
pub fn answer_response(answer: &Answer, model: &str, seeds: &Vec<u64>, secs: u64) -> (r: Reply)
    requires
        seeds@.len() == 1 + item_count(answer@),
    ensures
        r@ == json_reply(200, answer_body(answer@, model@, seeds@, secs)),
{
    let output = make_output(answer, seeds);
    let id = make_short_id("resp_", seeds[0]);
    let usage = match &answer.usage {
        Some(u) => u.clone(),
        None => null_value(),
    };
    let mut body = JsonMap::new();
    put(&mut body, "id", text_value(id.as_str()));
    put(&mut body, "object", text_value("response"));
    put(&mut body, "created_at", u64_value(secs));
    put(&mut body, "status", text_value("completed"));
    put(&mut body, "model", text_value(model));
    put(&mut body, "output", array_value(output));
    put(&mut body, "usage", usage);
    proof {
        assert(crate::json::entries(body) =~= answer_body(answer@, model@, seeds@, secs)->Object_0);
    }
    json_response(200, &object_value(body))
}

/// Reads the clock once for the response and once for each of its items.
fn read_seeds(answer: &Answer) -> (r: Vec<u64>)
    ensures
        r@.len() == 1 + item_count(answer@),
        forall|i: int| 0 <= i < r@.len() ==> is_clock_nanos(#[trigger] r@[i]),
{
    let mut seeds: Vec<u64> = Vec::new();
    seeds.push(clock_nanos());
    if !answer.content.as_str().is_empty() {
        seeds.push(clock_nanos());
    }
    let indices = keys_in_order(&answer.calls);
    proof {
        assert(answer@.calls.dom() =~= answer.calls@.dom());
    }
    let ghost first = seeds@.len();
    let mut i: usize = 0;
    while i < indices.len()
        invariant
            i <= indices.len(),
            seeds@.len() == first + i,
            forall|j: int| 0 <= j < seeds@.len() ==> is_clock_nanos(#[trigger] seeds@[j]),
        decreases indices.len() - i,
    {
        seeds.push(clock_nanos());
        i = i + 1;
    }
    seeds
}

/// Whether a reply carries the answer that a text holds, with identifiers and a
/// time that are made from readings of the clock.
pub open spec fn carries_answer(r: ReplyModel, text: Seq<char>, model: Seq<char>) -> bool {
    exists|seeds: Seq<u64>, secs: u64|
        {
            &&& seeds.len() == 1 + item_count(answer_in(text))
            &&& forall|i: int| 0 <= i < seeds.len() ==> is_clock_nanos(#[trigger] seeds[i])
            &&& is_clock_secs(secs)
            &&& r == #[trigger] json_reply(
                200,
                answer_body(answer_in(text), model, seeds, secs),
            )
        }
}

/// The reply to a request that is not streamed, from the whole answer of the
/// upstream. One that is too large is refused.
pub fn non_streaming_response(bytes: &[u8], model: &str) -> (r: Reply)
    ensures
        bytes@.len() > MAX_ANSWER_BYTES ==> r@ == json_reply(
            413,
            error_body("non-streaming response exceeded 16 MiB"@),
        ),
        bytes@.len() <= MAX_ANSWER_BYTES ==> {
            &&& carries_answer(r@, utf8_lossy(bytes@), model@)
            &&& vstd::utf8::valid_utf8(bytes@) ==> utf8_lossy(bytes@) == vstd::utf8::decode_utf8(
                bytes@,
            )
        },
{
    if bytes.len() > MAX_ANSWER_BYTES {
        return error_response(413, "non-streaming response exceeded 16 MiB");
    }
    let text = text_from_utf8_lossy(bytes);
    let answer = read_answer(text.as_str());
    let seeds = read_seeds(&answer);
    let secs: u64 = clock_secs();
    let r = answer_response(&answer, model, &seeds, secs);
    proof {
        assert(r@ == json_reply(200, answer_body(answer_in(text@), model@, seeds@, secs)));
    }
    r
}

/// The reply where the answer of the upstream could not be read.
pub fn unreadable_response(error: &str) -> (r: Reply)
    ensures
        r@ == json_reply(502, error_body("error reading upstream: "@ + error@)),
{
    let mut message = "error reading upstream: ".to_string();
    message.append(error);
    error_response(502, message.as_str())
}

/// The text of the messages in payloads, one after another.
pub open spec fn content_in(events: Seq<SseModel>) -> Seq<char>
    decreases events.len(),
{
    if events.len() == 0 {
        Seq::empty()
    } else {
        content_in(events.drop_last()) + content_of(events.last())
    }
}

/// The text that a payload adds to the message.
pub open spec fn content_of(e: SseModel) -> Seq<char> {
    match content_brought(e) {
        Some(t) => t,
        None => Seq::empty(),
    }
}

/// The message of an answer is the text of its payloads, in their order, with
/// nothing added and nothing left out.
pub proof fn content_is_put_together(a: AnswerModel, events: Seq<SseModel>)
    ensures
        with_payloads(a, events).content == a.content + content_in(events),
    decreases events.len(),
{
    if events.len() == 0 {
        assert(a.content + Seq::<char>::empty() =~= a.content);
    } else {
        let before = with_payloads(a, events.drop_last());
        content_is_put_together(a, events.drop_last());
        let e = events.last();
        assert(with_payload(before, e).content =~= before.content + content_of(e));
        assert(with_payloads(a, events).content =~= a.content + content_in(events));
    }
}

/// Payloads that come in two parts make the same answer as they make in one.
pub proof fn answers_come_in_parts(a: AnswerModel, x: Seq<SseModel>, y: Seq<SseModel>)
    ensures
        with_payloads(a, x + y) == with_payloads(with_payloads(a, x), y),
    decreases y.len(),
{
    if y.len() == 0 {
        assert(x + y =~= x);
    } else {
        assert((x + y).drop_last() =~= x + y.drop_last());
        answers_come_in_parts(a, x, y.drop_last());
    }
}

/// The arguments in the pieces for the tool call at `index`, one after another.
pub open spec fn arguments_at(pieces: Seq<Json>, index: u32) -> Seq<char>
    decreases pieces.len(),
{
    if pieces.len() == 0 {
        Seq::empty()
    } else {
        let piece = pieces.last();
        arguments_at(pieces.drop_last(), index) + match arguments_for(piece, index) {
            Some(t) => t,
            None => Seq::empty(),
        }
    }
}

/// The arguments of a tool call are those of its pieces, in their order, with
/// nothing added and nothing left out.
pub proof fn arguments_are_put_together(
    calls: Map<u32, CallModel>,
    pieces: Seq<Json>,
    index: u32,
)
    ensures
        call_at(with_pieces(calls, pieces), index).arguments == call_at(calls, index).arguments
            + arguments_at(pieces, index),
    decreases pieces.len(),
{
    let was = call_at(calls, index).arguments;
    if pieces.len() == 0 {
        assert(was + Seq::<char>::empty() =~= was);
    } else {
        let piece = pieces.last();
        let before = with_pieces(calls, pieces.drop_last());
        arguments_are_put_together(calls, pieces.drop_last(), index);
        let so_far = call_at(before, index).arguments;
        assert(so_far + Seq::<char>::empty() =~= so_far);
        assert(was + arguments_at(pieces.drop_last(), index) == so_far);
        assert(call_at(with_pieces(calls, pieces), index).arguments =~= was + arguments_at(
            pieces,
            index,
        ));
    }
}

} // verus!
