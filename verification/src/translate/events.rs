//! The events of a Responses stream, and the text of each on the wire.

use crate::json::array_value;
use crate::json::json;
use crate::json::json_seq;
use crate::json::json_text;
use crate::json::text_value;
use crate::json::u64_value;
use crate::json::value_text;
use crate::json::Json;
use serde_json::Value;
use vstd::prelude::*;
use vstd::string::StringExecFns;

verus! {

/// One event of a Responses stream.
#[allow(inconsistent_fields)]
#[derive(Debug, Clone)]
pub enum ResponsesEvent {
    Created { sequence_number: u64, response: CreatedResponseBody },
    OutputItemAdded { sequence_number: u64, output_index: u32, item: Value },
    OutputTextDelta {
        sequence_number: u64,
        item_id: String,
        output_index: u32,
        content_index: u32,
        delta: String,
    },
    /// A piece of the reasoning of a model that shows it.
    ReasoningTextDelta {
        sequence_number: u64,
        item_id: String,
        output_index: u32,
        content_index: u32,
        delta: String,
    },
    FunctionCallArgumentsDelta {
        sequence_number: u64,
        item_id: String,
        output_index: u32,
        delta: String,
    },
    OutputItemDone { sequence_number: u64, output_index: u32, item: Value },
    Completed { sequence_number: u64, response: CompletedResponseBody },
    Failed { sequence_number: u64, response: FailedResponseBody },
}

#[derive(Debug, Clone)]
pub struct CreatedResponseBody {
    pub id: String,
    pub object: String,
    pub created_at: u64,
    pub status: String,
    pub model: String,
    pub output: Vec<Value>,
}

#[derive(Debug, Clone)]
pub struct CompletedResponseBody {
    pub id: String,
    pub object: String,
    pub created_at: u64,
    pub status: String,
    pub model: String,
    pub output: Vec<Value>,
    pub usage: Option<UsageSummary>,
}

#[derive(Debug, Clone)]
pub struct FailedResponseBody {
    pub id: String,
    pub object: String,
    pub created_at: u64,
    pub status: String,
    pub error: Value,
    pub output: Vec<Value>,
}

/// How many tokens a response took.
#[derive(Debug, Clone, Copy, PartialEq, Eq, Structural)]
pub struct UsageSummary {
    pub input_tokens: u64,
    pub output_tokens: u64,
    pub total_tokens: u64,
}

/// What a [`CreatedResponseBody`] holds.
pub struct CreatedModel {
    pub id: Seq<char>,
    pub object: Seq<char>,
    pub created_at: u64,
    pub status: Seq<char>,
    pub model: Seq<char>,
    pub output: Seq<Json>,
}

/// What a [`CompletedResponseBody`] holds.
pub struct CompletedModel {
    pub id: Seq<char>,
    pub object: Seq<char>,
    pub created_at: u64,
    pub status: Seq<char>,
    pub model: Seq<char>,
    pub output: Seq<Json>,
    pub usage: Option<UsageSummary>,
}

/// What a [`FailedResponseBody`] holds.
pub struct FailedModel {
    pub id: Seq<char>,
    pub object: Seq<char>,
    pub created_at: u64,
    pub status: Seq<char>,
    pub error: Json,
    pub output: Seq<Json>,
}

/// What a [`ResponsesEvent`] holds.
#[allow(inconsistent_fields)]
pub enum EventModel {
    Created { sequence_number: u64, response: CreatedModel },
    OutputItemAdded { sequence_number: u64, output_index: u32, item: Json },
    OutputTextDelta {
        sequence_number: u64,
        item_id: Seq<char>,
        output_index: u32,
        content_index: u32,
        delta: Seq<char>,
    },
    ReasoningTextDelta {
        sequence_number: u64,
        item_id: Seq<char>,
        output_index: u32,
        content_index: u32,
        delta: Seq<char>,
    },
    FunctionCallArgumentsDelta {
        sequence_number: u64,
        item_id: Seq<char>,
        output_index: u32,
        delta: Seq<char>,
    },
    OutputItemDone { sequence_number: u64, output_index: u32, item: Json },
    Completed { sequence_number: u64, response: CompletedModel },
    Failed { sequence_number: u64, response: FailedModel },
}

impl EventModel {
    /// The number that the event carries.
    pub open spec fn number(self) -> u64 {
        match self {
            EventModel::Created { sequence_number, .. } => sequence_number,
            EventModel::OutputItemAdded { sequence_number, .. } => sequence_number,
            EventModel::OutputTextDelta { sequence_number, .. } => sequence_number,
            EventModel::ReasoningTextDelta { sequence_number, .. } => sequence_number,
            EventModel::FunctionCallArgumentsDelta { sequence_number, .. } => sequence_number,
            EventModel::OutputItemDone { sequence_number, .. } => sequence_number,
            EventModel::Completed { sequence_number, .. } => sequence_number,
            EventModel::Failed { sequence_number, .. } => sequence_number,
        }
    }
}

impl View for CreatedResponseBody {
    type V = CreatedModel;

    open spec fn view(&self) -> CreatedModel {
        CreatedModel {
            id: self.id@,
            object: self.object@,
            created_at: self.created_at,
            status: self.status@,
            model: self.model@,
            output: json_seq(self.output@),
        }
    }
}

impl View for CompletedResponseBody {
    type V = CompletedModel;

    open spec fn view(&self) -> CompletedModel {
        CompletedModel {
            id: self.id@,
            object: self.object@,
            created_at: self.created_at,
            status: self.status@,
            model: self.model@,
            output: json_seq(self.output@),
            usage: self.usage,
        }
    }
}

impl View for FailedResponseBody {
    type V = FailedModel;

    open spec fn view(&self) -> FailedModel {
        FailedModel {
            id: self.id@,
            object: self.object@,
            created_at: self.created_at,
            status: self.status@,
            error: json(self.error),
            output: json_seq(self.output@),
        }
    }
}

impl View for ResponsesEvent {
    type V = EventModel;

    open spec fn view(&self) -> EventModel {
        match *self {
            ResponsesEvent::Created { sequence_number, response } => EventModel::Created {
                sequence_number,
                response: response@,
            },
            ResponsesEvent::OutputItemAdded { sequence_number, output_index, item } =>
                EventModel::OutputItemAdded { sequence_number, output_index, item: json(item) },
            ResponsesEvent::OutputTextDelta {
                sequence_number,
                item_id,
                output_index,
                content_index,
                delta,
            } => EventModel::OutputTextDelta {
                sequence_number,
                item_id: item_id@,
                output_index,
                content_index,
                delta: delta@,
            },
            ResponsesEvent::ReasoningTextDelta {
                sequence_number,
                item_id,
                output_index,
                content_index,
                delta,
            } => EventModel::ReasoningTextDelta {
                sequence_number,
                item_id: item_id@,
                output_index,
                content_index,
                delta: delta@,
            },
            ResponsesEvent::FunctionCallArgumentsDelta {
                sequence_number,
                item_id,
                output_index,
                delta,
            } => EventModel::FunctionCallArgumentsDelta {
                sequence_number,
                item_id: item_id@,
                output_index,
                delta: delta@,
            },
            ResponsesEvent::OutputItemDone { sequence_number, output_index, item } =>
                EventModel::OutputItemDone { sequence_number, output_index, item: json(item) },
            ResponsesEvent::Completed { sequence_number, response } => EventModel::Completed {
                sequence_number,
                response: response@,
            },
            ResponsesEvent::Failed { sequence_number, response } => EventModel::Failed {
                sequence_number,
                response: response@,
            },
        }
    }
}

/// A member of a JSON object as it is written: its name, which holds nothing
/// that JSON would escape, and the text of its value.
pub struct Member {
    pub name: Seq<char>,
    pub text: Seq<char>,
}

/// The text of one member.
pub open spec fn member_text(m: Member) -> Seq<char> {
    "\""@ + m.name + "\":"@ + m.text
}

/// The text of members in a row, with commas between them.
pub open spec fn members_text(members: Seq<Member>) -> Seq<char>
    decreases members.len(),
{
    if members.len() == 0 {
        Seq::empty()
    } else if members.len() == 1 {
        member_text(members[0])
    } else {
        members_text(members.drop_last()) + ","@ + member_text(members.last())
    }
}

/// The text of an object with these members, in this order.
pub open spec fn object_text(members: Seq<Member>) -> Seq<char> {
    "{"@ + members_text(members) + "}"@
}

/// A member under `name` whose value is printed as `text`.
pub open spec fn member(name: &str, text: Seq<char>) -> Member {
    Member { name: name@, text }
}

/// A member under `name` with a string.
pub open spec fn text_member(name: &str, value: Seq<char>) -> Member {
    Member { name: name@, text: json_text(Json::Str(value)) }
}

/// A member under `name` with a number.
pub open spec fn number_member(name: &str, value: u64) -> Member {
    Member { name: name@, text: json_text(Json::Unsigned(value)) }
}

/// A member under `name` with any value.
pub open spec fn value_member(name: &str, value: Json) -> Member {
    Member { name: name@, text: json_text(value) }
}

/// The members of what a created response holds.
pub open spec fn created_members(r: CreatedModel) -> Seq<Member> {
    seq![
        text_member("id", r.id),
        text_member("object", r.object),
        number_member("created_at", r.created_at),
        text_member("status", r.status),
        text_member("model", r.model),
        value_member("output", Json::Array(r.output)),
    ]
}

/// The text of what a created response holds.
pub open spec fn created_text(r: CreatedModel) -> Seq<char> {
    object_text(created_members(r))
}

/// The members of a token count.
pub open spec fn usage_members(u: UsageSummary) -> Seq<Member> {
    seq![
        number_member("input_tokens", u.input_tokens),
        number_member("output_tokens", u.output_tokens),
        number_member("total_tokens", u.total_tokens),
    ]
}

/// The text of a token count.
pub open spec fn usage_text(u: Option<UsageSummary>) -> Seq<char> {
    match u {
        Some(u) => object_text(usage_members(u)),
        None => "null"@,
    }
}

/// The members of what a completed response holds.
pub open spec fn completed_members(r: CompletedModel) -> Seq<Member> {
    seq![
        text_member("id", r.id),
        text_member("object", r.object),
        number_member("created_at", r.created_at),
        text_member("status", r.status),
        text_member("model", r.model),
        value_member("output", Json::Array(r.output)),
        member("usage", usage_text(r.usage)),
    ]
}

/// The text of what a completed response holds.
pub open spec fn completed_text(r: CompletedModel) -> Seq<char> {
    object_text(completed_members(r))
}

/// The members of what a failed response holds.
pub open spec fn failed_members(r: FailedModel) -> Seq<Member> {
    seq![
        text_member("id", r.id),
        text_member("object", r.object),
        number_member("created_at", r.created_at),
        text_member("status", r.status),
        value_member("error", r.error),
        value_member("output", Json::Array(r.output)),
    ]
}

/// The text of what a failed response holds.
pub open spec fn failed_text(r: FailedModel) -> Seq<char> {
    object_text(failed_members(r))
}

/// The members of an event, its type first.
pub open spec fn event_members(e: EventModel) -> Seq<Member> {
    match e {
        EventModel::Created { sequence_number, response } => seq![
            member("type", "\"response.created\""@),
            number_member("sequence_number", sequence_number),
            member("response", created_text(response)),
        ],
        EventModel::OutputItemAdded { sequence_number, output_index, item } => seq![
            member("type", "\"response.output_item.added\""@),
            number_member("sequence_number", sequence_number),
            number_member("output_index", output_index as u64),
            value_member("item", item),
        ],
        EventModel::OutputTextDelta {
            sequence_number,
            item_id,
            output_index,
            content_index,
            delta,
        } => seq![
            member("type", "\"response.output_text.delta\""@),
            number_member("sequence_number", sequence_number),
            text_member("item_id", item_id),
            number_member("output_index", output_index as u64),
            number_member("content_index", content_index as u64),
            text_member("delta", delta),
        ],
        EventModel::ReasoningTextDelta {
            sequence_number,
            item_id,
            output_index,
            content_index,
            delta,
        } => seq![
            member("type", "\"response.reasoning_text.delta\""@),
            number_member("sequence_number", sequence_number),
            text_member("item_id", item_id),
            number_member("output_index", output_index as u64),
            number_member("content_index", content_index as u64),
            text_member("delta", delta),
        ],
        EventModel::FunctionCallArgumentsDelta { sequence_number, item_id, output_index, delta } => seq![
            member("type", "\"response.function_call_arguments.delta\""@),
            number_member("sequence_number", sequence_number),
            text_member("item_id", item_id),
            number_member("output_index", output_index as u64),
            text_member("delta", delta),
        ],
        EventModel::OutputItemDone { sequence_number, output_index, item } => seq![
            member("type", "\"response.output_item.done\""@),
            number_member("sequence_number", sequence_number),
            number_member("output_index", output_index as u64),
            value_member("item", item),
        ],
        EventModel::Completed { sequence_number, response } => seq![
            member("type", "\"response.completed\""@),
            number_member("sequence_number", sequence_number),
            member("response", completed_text(response)),
        ],
        EventModel::Failed { sequence_number, response } => seq![
            member("type", "\"response.failed\""@),
            number_member("sequence_number", sequence_number),
            member("response", failed_text(response)),
        ],
    }
}

/// The text of an event.
pub open spec fn event_text(e: EventModel) -> Seq<char> {
    object_text(event_members(e))
}

/// An event on the wire: one `data:` line and an empty line.
pub open spec fn sse_event(e: EventModel) -> Seq<char> {
    "data: "@ + event_text(e) + "\n\n"@
}

/// Events on the wire, one after another.
pub open spec fn sse_events(events: Seq<EventModel>) -> Seq<char>
    decreases events.len(),
{
    if events.len() == 0 {
        Seq::empty()
    } else {
        sse_events(events.drop_last()) + sse_event(events.last())
    }
}

/// Whether the text of each event is one line.
pub open spec fn one_line_each(events: Seq<EventModel>) -> bool {
    forall|i: int|
        0 <= i < events.len() ==> !event_text(#[trigger] events[i]).contains('\n')
}

/// The wire text of two runs of events is the text of the first followed by the
/// text of the second.
pub proof fn sse_events_of_concatenation(a: Seq<EventModel>, b: Seq<EventModel>)
    ensures
        sse_events(a + b) == sse_events(a) + sse_events(b),
    decreases b.len(),
{
    if b.len() == 0 {
        assert(a + b =~= a);
        assert(sse_events(a) + sse_events(b) =~= sse_events(a));
    } else {
        sse_events_of_concatenation(a, b.drop_last());
        assert((a + b).drop_last() =~= a + b.drop_last());
        assert(sse_events(a + b) =~= sse_events(a) + sse_events(b));
    }
}

proof fn lemma_concat_lacks(a: Seq<char>, b: Seq<char>, c: char)
    requires
        !a.contains(c),
        !b.contains(c),
    ensures
        !(a + b).contains(c),
{
    assert forall|i: int| 0 <= i < (a + b).len() implies (a + b)[i] != c by {
        if i < a.len() {
            assert(a.contains(a[i]));
        } else {
            assert(b.contains(b[i - a.len()]));
        }
    }
}

/// Writes the members of a JSON object one by one.
struct ObjectWriter {
    buf: String,
    empty: bool,
    members: Ghost<Seq<Member>>,
}

impl ObjectWriter {
    spec fn wf(self) -> bool {
        &&& self.buf@ == "{"@ + members_text(self.members@)
        &&& self.empty == (self.members@.len() == 0)
        &&& !self.buf@.contains('\n')
    }

    fn new() -> (w: ObjectWriter)
        ensures
            w.wf(),
            w.members@ == Seq::<Member>::empty(),
    {
        let w = ObjectWriter { buf: "{".to_string(), empty: true, members: Ghost(Seq::empty()) };
        proof {
            reveal_strlit("{");
            assert(w.buf@ =~= "{"@ + members_text(w.members@));
        }
        w
    }

    /// Writes a member whose value is printed as `text`.
    fn write(&mut self, name: &str, text: &str)
        requires
            old(self).wf(),
            !name@.contains('\n'),
            !text@.contains('\n'),
        ensures
            final(self).wf(),
            final(self).members@ == old(self).members@.push(Member { name: name@, text: text@ }),
    {
        let ghost before = self.buf@;
        let ghost m = Member { name: name@, text: text@ };
        let ghost was = self.members@;
        proof {
            reveal_strlit("{");
            reveal_strlit(",");
            reveal_strlit("\"");
            reveal_strlit("\":");
            lemma_concat_lacks(before, ","@, '\n');
            lemma_concat_lacks("\""@, name@, '\n');
            lemma_concat_lacks("\""@ + name@, "\":"@, '\n');
            lemma_concat_lacks("\""@ + name@ + "\":"@, text@, '\n');
            lemma_concat_lacks(before, member_text(m), '\n');
            lemma_concat_lacks(before + ","@, member_text(m), '\n');
            assert(was.push(m).drop_last() =~= was);
        }
        if !self.empty {
            self.buf.append(",");
        }
        self.buf.append("\"");
        self.buf.append(name);
        self.buf.append("\":");
        self.buf.append(text);
        self.empty = false;
        self.members = Ghost(self.members@.push(m));
        proof {
            if was.len() == 0 {
                assert(self.buf@ =~= before + member_text(m));
            } else {
                assert(self.buf@ =~= before + ","@ + member_text(m));
            }
            assert(self.buf@ =~= "{"@ + members_text(self.members@));
        }
    }

    /// Writes a member with a string.
    fn write_text(&mut self, name: &str, value: &str)
        requires
            old(self).wf(),
            !name@.contains('\n'),
        ensures
            final(self).wf(),
            final(self).members@ == old(self).members@.push(text_member(name, value@)),
    {
        let text = value_text(&text_value(value));
        self.write(name, text.as_str());
    }

    /// Writes a member with a number.
    fn write_number(&mut self, name: &str, value: u64)
        requires
            old(self).wf(),
            !name@.contains('\n'),
        ensures
            final(self).wf(),
            final(self).members@ == old(self).members@.push(number_member(name, value)),
    {
        let text = value_text(&u64_value(value));
        self.write(name, text.as_str());
    }

    /// Writes a member with any value.
    fn write_value(&mut self, name: &str, value: &Value)
        requires
            old(self).wf(),
            !name@.contains('\n'),
        ensures
            final(self).wf(),
            final(self).members@ == old(self).members@.push(value_member(name, json(*value))),
    {
        let text = value_text(value);
        self.write(name, text.as_str());
    }

    /// Writes a member with an array.
    fn write_array(&mut self, name: &str, value: &Vec<Value>)
        requires
            old(self).wf(),
            !name@.contains('\n'),
        ensures
            final(self).wf(),
            final(self).members@ == old(self).members@.push(
                value_member(name, Json::Array(json_seq(value@))),
            ),
    {
        let mut copy: Vec<Value> = Vec::new();
        let mut i: usize = 0;
        while i < value.len()
            invariant
                i <= value.len(),
                json_seq(copy@) == json_seq(value@).take(i as int),
            decreases value.len() - i,
        {
            let v = value[i].clone();
            proof {
                crate::json::lemma_json_seq_push(copy@, v);
            }
            copy.push(v);
            i = i + 1;
            proof {
                assert(json_seq(copy@) =~= json_seq(value@).take(i as int));
            }
        }
        proof {
            assert(json_seq(copy@) =~= json_seq(value@));
        }
        self.write_value(name, &array_value(copy));
    }

    /// The text of the object.
    fn finish(self) -> (r: String)
        requires
            self.wf(),
        ensures
            r@ == object_text(self.members@),
            !r@.contains('\n'),
    {
        let ghost before = self.buf@;
        let mut out = self.buf;
        out.append("}");
        proof {
            reveal_strlit("}");
            lemma_concat_lacks(before, "}"@, '\n');
        }
        out
    }
}

fn write_created(r: &CreatedResponseBody) -> (text: String)
    ensures
        text@ == created_text(r@),
        !text@.contains('\n'),
{
    proof {
        lemma_names();
    }
    let mut w = ObjectWriter::new();
    w.write_text("id", r.id.as_str());
    w.write_text("object", r.object.as_str());
    w.write_number("created_at", r.created_at);
    w.write_text("status", r.status.as_str());
    w.write_text("model", r.model.as_str());
    w.write_array("output", &r.output);
    proof {
        assert(w.members@ =~= created_members(r@));
    }
    w.finish()
}

fn write_usage(u: &Option<UsageSummary>) -> (text: String)
    ensures
        text@ == usage_text(*u),
        !text@.contains('\n'),
{
    proof {
        lemma_names();
    }
    match u {
        Some(u) => {
            let mut w = ObjectWriter::new();
            w.write_number("input_tokens", u.input_tokens);
            w.write_number("output_tokens", u.output_tokens);
            w.write_number("total_tokens", u.total_tokens);
            proof {
                assert(w.members@ =~= usage_members(*u));
            }
            w.finish()
        },
        None => "null".to_string(),
    }
}

fn write_completed(r: &CompletedResponseBody) -> (text: String)
    ensures
        text@ == completed_text(r@),
        !text@.contains('\n'),
{
    proof {
        lemma_names();
    }
    let mut w = ObjectWriter::new();
    w.write_text("id", r.id.as_str());
    w.write_text("object", r.object.as_str());
    w.write_number("created_at", r.created_at);
    w.write_text("status", r.status.as_str());
    w.write_text("model", r.model.as_str());
    w.write_array("output", &r.output);
    let usage = write_usage(&r.usage);
    w.write("usage", usage.as_str());
    proof {
        assert(w.members@ =~= completed_members(r@));
    }
    w.finish()
}

fn write_failed(r: &FailedResponseBody) -> (text: String)
    ensures
        text@ == failed_text(r@),
        !text@.contains('\n'),
{
    proof {
        lemma_names();
    }
    let mut w = ObjectWriter::new();
    w.write_text("id", r.id.as_str());
    w.write_text("object", r.object.as_str());
    w.write_number("created_at", r.created_at);
    w.write_text("status", r.status.as_str());
    w.write_value("error", &r.error);
    w.write_array("output", &r.output);
    proof {
        assert(w.members@ =~= failed_members(r@));
    }
    w.finish()
}

fn write_event(event: &ResponsesEvent) -> (text: String)
    ensures
        text@ == event_text(event@),
        !text@.contains('\n'),
{
    proof {
        lemma_event_names();
    }
    let mut w = ObjectWriter::new();
    match event {
        ResponsesEvent::Created { sequence_number, response } => {
            w.write("type", "\"response.created\"");
            w.write_number("sequence_number", *sequence_number);
            let response_text = write_created(response);
            w.write("response", response_text.as_str());
        },
        ResponsesEvent::OutputItemAdded { sequence_number, output_index, item } => {
            w.write("type", "\"response.output_item.added\"");
            w.write_number("sequence_number", *sequence_number);
            w.write_number("output_index", *output_index as u64);
            w.write_value("item", item);
        },
        ResponsesEvent::OutputTextDelta {
            sequence_number,
            item_id,
            output_index,
            content_index,
            delta,
        } => {
            w.write("type", "\"response.output_text.delta\"");
            w.write_number("sequence_number", *sequence_number);
            w.write_text("item_id", item_id.as_str());
            w.write_number("output_index", *output_index as u64);
            w.write_number("content_index", *content_index as u64);
            w.write_text("delta", delta.as_str());
        },
        ResponsesEvent::ReasoningTextDelta {
            sequence_number,
            item_id,
            output_index,
            content_index,
            delta,
        } => {
            w.write("type", "\"response.reasoning_text.delta\"");
            w.write_number("sequence_number", *sequence_number);
            w.write_text("item_id", item_id.as_str());
            w.write_number("output_index", *output_index as u64);
            w.write_number("content_index", *content_index as u64);
            w.write_text("delta", delta.as_str());
        },
        ResponsesEvent::FunctionCallArgumentsDelta {
            sequence_number,
            item_id,
            output_index,
            delta,
        } => {
            w.write("type", "\"response.function_call_arguments.delta\"");
            w.write_number("sequence_number", *sequence_number);
            w.write_text("item_id", item_id.as_str());
            w.write_number("output_index", *output_index as u64);
            w.write_text("delta", delta.as_str());
        },
        ResponsesEvent::OutputItemDone { sequence_number, output_index, item } => {
            w.write("type", "\"response.output_item.done\"");
            w.write_number("sequence_number", *sequence_number);
            w.write_number("output_index", *output_index as u64);
            w.write_value("item", item);
        },
        ResponsesEvent::Completed { sequence_number, response } => {
            w.write("type", "\"response.completed\"");
            w.write_number("sequence_number", *sequence_number);
            let response_text = write_completed(response);
            w.write("response", response_text.as_str());
        },
        ResponsesEvent::Failed { sequence_number, response } => {
            w.write("type", "\"response.failed\"");
            w.write_number("sequence_number", *sequence_number);
            let response_text = write_failed(response);
            w.write("response", response_text.as_str());
        },
    }
    proof {
        assert(w.members@ =~= event_members(event@));
    }
    w.finish()
}

/// Writes an event as it goes over the wire. Its data is one line.
pub fn format_sse_event(event: &ResponsesEvent) -> (r: String)
    ensures
        r@ == sse_event(event@),
        !event_text(event@).contains('\n'),
{
    let mut out = "data: ".to_string();
    let text = write_event(event);
    out.append(text.as_str());
    out.append("\n\n");
    out
}

/// The names of the members of an event, and its types, are free of line feeds.
proof fn lemma_event_names()
    ensures
        !"type"@.contains('\n'),
        !"sequence_number"@.contains('\n'),
        !"response"@.contains('\n'),
        !"output_index"@.contains('\n'),
        !"content_index"@.contains('\n'),
        !"item"@.contains('\n'),
        !"item_id"@.contains('\n'),
        !"delta"@.contains('\n'),
        !"\"response.created\""@.contains('\n'),
        !"\"response.output_item.added\""@.contains('\n'),
        !"\"response.output_text.delta\""@.contains('\n'),
        !"\"response.reasoning_text.delta\""@.contains('\n'),
        !"\"response.function_call_arguments.delta\""@.contains('\n'),
        !"\"response.output_item.done\""@.contains('\n'),
        !"\"response.completed\""@.contains('\n'),
        !"\"response.failed\""@.contains('\n'),
{
    reveal_strlit("type");
    reveal_strlit("sequence_number");
    reveal_strlit("response");
    reveal_strlit("output_index");
    reveal_strlit("content_index");
    reveal_strlit("item");
    reveal_strlit("item_id");
    reveal_strlit("delta");
    reveal_strlit("\"response.created\"");
    reveal_strlit("\"response.output_item.added\"");
    reveal_strlit("\"response.output_text.delta\"");
    reveal_strlit("\"response.reasoning_text.delta\"");
    reveal_strlit("\"response.function_call_arguments.delta\"");
    reveal_strlit("\"response.output_item.done\"");
    reveal_strlit("\"response.completed\"");
    reveal_strlit("\"response.failed\"");
}

/// The names of the members of a response are free of line feeds.
proof fn lemma_names()
    ensures
        !"id"@.contains('\n'),
        !"object"@.contains('\n'),
        !"created_at"@.contains('\n'),
        !"status"@.contains('\n'),
        !"model"@.contains('\n'),
        !"output"@.contains('\n'),
        !"usage"@.contains('\n'),
        !"error"@.contains('\n'),
        !"null"@.contains('\n'),
        !"input_tokens"@.contains('\n'),
        !"output_tokens"@.contains('\n'),
        !"total_tokens"@.contains('\n'),
{
    reveal_strlit("id");
    reveal_strlit("object");
    reveal_strlit("created_at");
    reveal_strlit("status");
    reveal_strlit("model");
    reveal_strlit("output");
    reveal_strlit("usage");
    reveal_strlit("error");
    reveal_strlit("null");
    reveal_strlit("input_tokens");
    reveal_strlit("output_tokens");
    reveal_strlit("total_tokens");
}

} // verus!
