//! What a stream converter does: its state, and the events of each step.

use crate::ids::id_text;
use crate::json::Json;
use crate::text::string_view;
use crate::translate::chat::ChatChunk;
use crate::translate::chat::ChatToolCall;
use crate::translate::chat::ChatUsage;
use crate::translate::events::CompletedModel;
use crate::translate::events::CreatedModel;
use crate::translate::events::EventModel;
use crate::translate::events::FailedModel;
use crate::translate::events::UsageSummary;
use vstd::prelude::*;

verus! {

/// A tool call that the upstream has begun.
pub struct ToolModel {
    pub item_id: Seq<char>,
    pub call_id: Seq<char>,
    pub name: Seq<char>,
    /// The arguments so far.
    pub arguments: Seq<char>,
    pub output_index: u32,
    /// Whether the call has been announced.
    pub added: bool,
}

/// The state of a stream converter.
pub struct StreamModel {
    /// The number of the next event.
    pub seq: u64,
    /// How many identifiers the process had made when this was last known.
    pub id_count: u64,
    pub response_id: Seq<char>,
    pub created_at: u64,
    /// The model name that the client knows.
    pub model: Seq<char>,
    /// The message that is being written, if any.
    pub message_item_id: Option<Seq<char>>,
    pub message_output_index: u32,
    pub message_text: Seq<char>,
    /// The reasoning that is being written, if any.
    pub reasoning_item_id: Option<Seq<char>>,
    pub reasoning_output_index: u32,
    pub reasoning_text: Seq<char>,
    /// The open tool calls, by the index that the upstream gave them.
    pub tool_calls: Map<u32, ToolModel>,
    pub next_tool_output_index: u32,
    pub created_emitted: bool,
    pub final_usage: Option<UsageSummary>,
    pub completed_emitted: bool,
}

/// What a step does: the state after it, and the events that it gives out.
pub struct Step {
    pub state: StreamModel,
    pub events: Seq<EventModel>,
}

/// A step that changes nothing and gives out nothing.
pub open spec fn no_step(m: StreamModel) -> Step {
    Step { state: m, events: Seq::empty() }
}

/// A step followed by another.
pub open spec fn followed_by(a: Step, b: Step) -> Step {
    Step { state: b.state, events: a.events + b.events }
}

/// The number after `n`; the largest is followed by 0.
pub open spec fn next_u64(n: u64) -> u64 {
    ((n + 1) % 0x1_0000_0000_0000_0000) as u64
}

/// The number after `n`; the largest is followed by 0.
pub open spec fn next_u32(n: u32) -> u32 {
    ((n + 1) % 0x1_0000_0000) as u32
}

/// What a chunk is read at: what the clock shows, and how many identifiers the
/// process has made.
pub struct Reading {
    pub now: u64,
    pub count: u64,
}

/// The state, once the process has made `count` identifiers.
pub open spec fn at_count(m: StreamModel, count: u64) -> StreamModel {
    StreamModel { id_count: count, ..m }
}

/// The state of a converter that has not given out anything, made from the
/// clock readings `now` and `secs`, with `count` identifiers made before.
pub open spec fn initial(model: Seq<char>, count: u64, now: u64, secs: u64) -> StreamModel {
    StreamModel {
        seq: 0,
        id_count: next_u64(count),
        response_id: id_text("resp"@, now ^ count),
        created_at: secs,
        model,
        message_item_id: None,
        message_output_index: 0,
        message_text: Seq::empty(),
        reasoning_item_id: None,
        reasoning_output_index: 0,
        reasoning_text: Seq::empty(),
        tool_calls: Map::empty(),
        next_tool_output_index: 1,
        created_emitted: false,
        final_usage: None,
        completed_emitted: false,
    }
}

/// The item of a reasoning that begins.
pub open spec fn reasoning_added_item(id: Seq<char>) -> Json {
    Json::Object(
        map![
            "type"@ => Json::Str("reasoning"@),
            "id"@ => Json::Str(id),
            "summary"@ => Json::Array(Seq::empty()),
            "content"@ => Json::Array(Seq::empty()),
            "status"@ => Json::Str("in_progress"@),
        ],
    )
}

/// The item of a reasoning that is complete.
pub open spec fn reasoning_done_item(id: Seq<char>, text: Seq<char>) -> Json {
    Json::Object(
        map![
            "type"@ => Json::Str("reasoning"@),
            "id"@ => Json::Str(id),
            "summary"@ => Json::Array(Seq::empty()),
            "content"@ => Json::Array(seq![text_part("reasoning_text"@, text)]),
            "status"@ => Json::Str("completed"@),
        ],
    )
}

/// A piece of content of the kind `kind` with a text.
pub open spec fn text_part(kind: Seq<char>, text: Seq<char>) -> Json {
    Json::Object(map!["type"@ => Json::Str(kind), "text"@ => Json::Str(text)])
}

/// The item of a message that begins.
pub open spec fn message_added_item(id: Seq<char>) -> Json {
    Json::Object(
        map![
            "type"@ => Json::Str("message"@),
            "id"@ => Json::Str(id),
            "role"@ => Json::Str("assistant"@),
            "status"@ => Json::Str("in_progress"@),
            "content"@ => Json::Array(Seq::empty()),
        ],
    )
}

/// The item of a message that is complete.
pub open spec fn message_done_item(id: Seq<char>, text: Seq<char>) -> Json {
    Json::Object(
        map![
            "type"@ => Json::Str("message"@),
            "id"@ => Json::Str(id),
            "role"@ => Json::Str("assistant"@),
            "status"@ => Json::Str("completed"@),
            "content"@ => Json::Array(seq![text_part("output_text"@, text)]),
        ],
    )
}

/// The item of a tool call, with the arguments that are shown for it.
pub open spec fn call_item(
    id: Seq<char>,
    call_id: Seq<char>,
    name: Seq<char>,
    arguments: Seq<char>,
    status: Seq<char>,
) -> Json {
    Json::Object(
        map![
            "type"@ => Json::Str("function_call"@),
            "id"@ => Json::Str(id),
            "call_id"@ => Json::Str(call_id),
            "name"@ => Json::Str(name),
            "arguments"@ => Json::Str(arguments),
            "status"@ => Json::Str(status),
        ],
    )
}

/// The response that the first event announces.
pub open spec fn created_response(m: StreamModel) -> CreatedModel {
    CreatedModel {
        id: m.response_id,
        object: "response"@,
        created_at: m.created_at,
        status: "in_progress"@,
        model: m.model,
        output: Seq::empty(),
    }
}

/// The first event, where it has not been given out yet.
pub open spec fn on_created(m: StreamModel) -> Step {
    if m.created_emitted {
        no_step(m)
    } else {
        Step {
            state: StreamModel { created_emitted: true, seq: next_u64(m.seq), ..m },
            events: seq![
                EventModel::Created { sequence_number: m.seq, response: created_response(m) },
            ],
        }
    }
}

/// A token count of the upstream.
pub open spec fn usage_summary(u: ChatUsage) -> UsageSummary {
    UsageSummary {
        input_tokens: u.prompt_tokens,
        output_tokens: u.completion_tokens,
        total_tokens: u.total_tokens,
    }
}

/// The state, with the token count of a chunk where the chunk has one.
pub open spec fn with_usage(m: StreamModel, usage: Option<ChatUsage>) -> StreamModel {
    match usage {
        Some(u) => StreamModel { final_usage: Some(usage_summary(u)), ..m },
        None => m,
    }
}

/// The beginning of a reasoning, where none is open.
pub open spec fn open_reasoning(m: StreamModel, now: u64) -> Step {
    if m.reasoning_item_id is Some {
        no_step(m)
    } else {
        let id = id_text("rs"@, now ^ m.id_count);
        Step {
            state: StreamModel {
                reasoning_item_id: Some(id),
                id_count: next_u64(m.id_count),
                seq: next_u64(m.seq),
                ..m
            },
            events: seq![
                EventModel::OutputItemAdded {
                    sequence_number: m.seq,
                    output_index: m.reasoning_output_index,
                    item: reasoning_added_item(id),
                },
            ],
        }
    }
}

/// A piece of an open reasoning.
pub open spec fn add_reasoning(m: StreamModel, text: Seq<char>) -> Step {
    Step {
        state: StreamModel {
            reasoning_text: m.reasoning_text + text,
            seq: next_u64(m.seq),
            ..m
        },
        events: seq![
            EventModel::ReasoningTextDelta {
                sequence_number: m.seq,
                item_id: m.reasoning_item_id->0,
                output_index: m.reasoning_output_index,
                content_index: 0,
                delta: text,
            },
        ],
    }
}

/// The reasoning in a chunk.
pub open spec fn on_reasoning(m: StreamModel, text: Option<Seq<char>>, now: u64) -> Step {
    if text is Some && text->0.len() > 0 {
        let opened = open_reasoning(m, now);
        followed_by(opened, add_reasoning(opened.state, text->0))
    } else {
        no_step(m)
    }
}

/// The beginning of a message, where none is open.
pub open spec fn open_message(m: StreamModel, now: u64) -> Step {
    if m.message_item_id is Some {
        no_step(m)
    } else {
        let id = id_text("msg"@, now ^ m.id_count);
        Step {
            state: StreamModel {
                message_item_id: Some(id),
                id_count: next_u64(m.id_count),
                seq: next_u64(m.seq),
                ..m
            },
            events: seq![
                EventModel::OutputItemAdded {
                    sequence_number: m.seq,
                    output_index: m.message_output_index,
                    item: message_added_item(id),
                },
            ],
        }
    }
}

/// A piece of an open message.
pub open spec fn add_text(m: StreamModel, text: Seq<char>) -> Step {
    Step {
        state: StreamModel { message_text: m.message_text + text, seq: next_u64(m.seq), ..m },
        events: seq![
            EventModel::OutputTextDelta {
                sequence_number: m.seq,
                item_id: m.message_item_id->0,
                output_index: m.message_output_index,
                content_index: 0,
                delta: text,
            },
        ],
    }
}

/// The text in a chunk.
pub open spec fn on_text(m: StreamModel, text: Option<Seq<char>>, now: u64) -> Step {
    if text is Some && text->0.len() > 0 {
        let opened = open_message(m, now);
        followed_by(opened, add_text(opened.state, text->0))
    } else {
        no_step(m)
    }
}

/// The name in a piece of a tool call.
pub open spec fn call_name(tc: ChatToolCall) -> Option<Seq<char>> {
    match tc.function {
        Some(f) => string_view(f.name),
        None => None,
    }
}

/// The arguments in a piece of a tool call.
pub open spec fn call_arguments(tc: ChatToolCall) -> Option<Seq<char>> {
    match tc.function {
        Some(f) => string_view(f.arguments),
        None => None,
    }
}

/// A tool call before its first piece has been read. The call has the output
/// index that is next; where the piece has no id, the call gets one.
pub open spec fn fresh_call(m: StreamModel, tc: ChatToolCall, now: u64) -> ToolModel {
    ToolModel {
        item_id: id_text("fc"@, now ^ m.id_count),
        call_id: match tc.id {
            Some(id) => id@,
            None => id_text("call"@, now ^ next_u64(m.id_count)),
        },
        name: Seq::empty(),
        arguments: Seq::empty(),
        output_index: m.next_tool_output_index,
        added: false,
    }
}

/// The state, with the tool call that a piece belongs to.
pub open spec fn open_call(m: StreamModel, tc: ChatToolCall, now: u64) -> StreamModel {
    if m.tool_calls.contains_key(tc.index) {
        m
    } else {
        StreamModel {
            tool_calls: m.tool_calls.insert(tc.index, fresh_call(m, tc, now)),
            next_tool_output_index: next_u32(m.next_tool_output_index),
            id_count: match tc.id {
                Some(_) => next_u64(m.id_count),
                None => next_u64(next_u64(m.id_count)),
            },
            ..m
        }
    }
}

/// A tool call, with the id and the name of a piece: a later id replaces an
/// earlier one, and the first name stays.
pub open spec fn labelled(t: ToolModel, tc: ChatToolCall) -> ToolModel {
    ToolModel {
        call_id: if tc.id is Some && tc.id->0@.len() > 0 {
            tc.id->0@
        } else {
            t.call_id
        },
        name: if t.name.len() == 0 && call_name(tc) is Some {
            call_name(tc)->0
        } else {
            t.name
        },
        ..t
    }
}

/// The announcement of the tool call number `index`, where it has a name and
/// has not been announced yet.
pub open spec fn announce_call(m: StreamModel, index: u32) -> Step {
    let t = m.tool_calls[index];
    if t.name.len() > 0 && !t.added {
        Step {
            state: StreamModel {
                tool_calls: m.tool_calls.insert(index, ToolModel { added: true, ..t }),
                seq: next_u64(m.seq),
                ..m
            },
            events: seq![
                EventModel::OutputItemAdded {
                    sequence_number: m.seq,
                    output_index: t.output_index,
                    item: call_item(t.item_id, t.call_id, t.name, ""@, "in_progress"@),
                },
            ],
        }
    } else {
        no_step(m)
    }
}

/// A piece of the arguments of the tool call number `index`.
pub open spec fn add_arguments(m: StreamModel, index: u32, arguments: Option<Seq<char>>) -> Step {
    let t = m.tool_calls[index];
    if arguments is Some && arguments->0.len() > 0 {
        Step {
            state: StreamModel {
                tool_calls: m.tool_calls.insert(
                    index,
                    ToolModel { arguments: t.arguments + arguments->0, ..t },
                ),
                seq: next_u64(m.seq),
                ..m
            },
            events: seq![
                EventModel::FunctionCallArgumentsDelta {
                    sequence_number: m.seq,
                    item_id: t.item_id,
                    output_index: t.output_index,
                    delta: arguments->0,
                },
            ],
        }
    } else {
        no_step(m)
    }
}

/// The state, with the id and the name of a piece taken into its tool call.
pub open spec fn label_call(m: StreamModel, tc: ChatToolCall, now: u64) -> StreamModel {
    let opened = open_call(m, tc, now);
    StreamModel {
        tool_calls: opened.tool_calls.insert(
            tc.index,
            labelled(opened.tool_calls[tc.index], tc),
        ),
        ..opened
    }
}

/// One piece of a tool call.
pub open spec fn on_tool_call(m: StreamModel, tc: ChatToolCall, now: u64) -> Step {
    let announced = announce_call(label_call(m, tc, now), tc.index);
    followed_by(announced, add_arguments(announced.state, tc.index, call_arguments(tc)))
}

/// Pieces of tool calls, one after another.
pub open spec fn on_tool_calls(m: StreamModel, calls: Seq<ChatToolCall>, now: u64) -> Step
    decreases calls.len(),
{
    if calls.len() == 0 {
        no_step(m)
    } else {
        let before = on_tool_calls(m, calls.drop_last(), now);
        followed_by(before, on_tool_call(before.state, calls.last(), now))
    }
}

/// The end of a reasoning that is open.
pub open spec fn close_reasoning(m: StreamModel) -> Step {
    match m.reasoning_item_id {
        Some(id) => Step {
            state: StreamModel {
                reasoning_item_id: None,
                reasoning_text: Seq::empty(),
                seq: next_u64(m.seq),
                ..m
            },
            events: seq![
                EventModel::OutputItemDone {
                    sequence_number: m.seq,
                    output_index: m.reasoning_output_index,
                    item: reasoning_done_item(id, m.reasoning_text),
                },
            ],
        },
        None => no_step(m),
    }
}

/// The end of a message that is open.
pub open spec fn close_message(m: StreamModel) -> Step {
    match m.message_item_id {
        Some(id) => Step {
            state: StreamModel {
                message_item_id: None,
                message_text: Seq::empty(),
                seq: next_u64(m.seq),
                ..m
            },
            events: seq![
                EventModel::OutputItemDone {
                    sequence_number: m.seq,
                    output_index: m.message_output_index,
                    item: message_done_item(id, m.message_text),
                },
            ],
        },
        None => no_step(m),
    }
}

/// The end of the tool call number `index`. One that never got a name is
/// dropped without an event.
pub open spec fn close_call(m: StreamModel, index: u32) -> Step {
    let t = m.tool_calls[index];
    let closed = StreamModel { tool_calls: m.tool_calls.remove(index), ..m };
    if t.added {
        Step {
            state: StreamModel { seq: next_u64(m.seq), ..closed },
            events: seq![
                EventModel::OutputItemDone {
                    sequence_number: m.seq,
                    output_index: t.output_index,
                    item: call_item(t.item_id, t.call_id, t.name, t.arguments, "completed"@),
                },
            ],
        }
    } else {
        no_step(closed)
    }
}

/// The end of tool calls, one after another.
pub open spec fn close_calls(m: StreamModel, indices: Seq<u32>) -> Step
    decreases indices.len(),
{
    if indices.len() == 0 {
        no_step(m)
    } else {
        let before = close_calls(m, indices.drop_last());
        followed_by(before, close_call(before.state, indices.last()))
    }
}

/// Whether each element is below those that follow it.
pub open spec fn ascending(s: Seq<u32>) -> bool {
    forall|i: int, j: int| 0 <= i < j < s.len() ==> s[i] < s[j]
}

/// The elements of a finite set from the smallest up.
pub open spec fn in_order(s: Set<u32>) -> Seq<u32> {
    choose|q: Seq<u32>| ascending(q) && q.to_set() == s
}

/// The response that the last event announces.
pub open spec fn completed_response(m: StreamModel) -> CompletedModel {
    CompletedModel {
        id: m.response_id,
        object: "response"@,
        created_at: m.created_at,
        status: "completed"@,
        model: m.model,
        output: Seq::empty(),
        usage: m.final_usage,
    }
}

/// The completion, where it has not been given out yet.
pub open spec fn on_completed(m: StreamModel) -> Step {
    if m.completed_emitted {
        no_step(m)
    } else {
        Step {
            state: StreamModel { completed_emitted: true, seq: next_u64(m.seq), ..m },
            events: seq![
                EventModel::Completed { sequence_number: m.seq, response: completed_response(m) },
            ],
        }
    }
}

/// The end of an answer: what is open is closed, the tool calls in the order of
/// their indices, and the response is complete.
pub open spec fn on_finish(m: StreamModel) -> Step {
    let a = close_reasoning(m);
    let b = followed_by(a, close_message(a.state));
    let c = followed_by(b, close_calls(b.state, in_order(b.state.tool_calls.dom())));
    followed_by(c, on_completed(c.state))
}

/// One chunk of the upstream, read at the time `now`. Only its first choice
/// counts.
pub open spec fn on_chunk(m: StreamModel, chunk: ChatChunk, now: u64) -> Step {
    let a = on_created(m);
    let b = Step { state: with_usage(a.state, chunk.usage), ..a };
    if chunk.choices@.len() == 0 {
        b
    } else {
        let choice = chunk.choices@[0];
        let c = followed_by(
            b,
            on_reasoning(b.state, string_view(choice.delta.reasoning_content), now),
        );
        let d = followed_by(c, on_text(c.state, string_view(choice.delta.content), now));
        let e = match choice.delta.tool_calls {
            Some(calls) => followed_by(d, on_tool_calls(d.state, calls@, now)),
            None => d,
        };
        if choice.finish_reason is Some {
            followed_by(e, on_finish(e.state))
        } else {
            e
        }
    }
}

/// One chunk of the upstream, read at `r`.
pub open spec fn on_chunk_at(m: StreamModel, chunk: ChatChunk, r: Reading) -> Step {
    on_chunk(at_count(m, r.count), chunk, r.now)
}

/// The end of the upstream's stream: what is still open is given up, and the
/// response is complete.
pub open spec fn on_end(m: StreamModel) -> Step {
    on_completed(StreamModel { reasoning_item_id: None, message_item_id: None, ..m })
}

/// What a failure is reported as.
pub open spec fn upstream_error(message: Seq<char>) -> Json {
    Json::Object(
        map!["code"@ => Json::Str("upstream_error"@), "message"@ => Json::Str(message)],
    )
}

/// A failure of the upstream.
pub open spec fn on_failed(m: StreamModel, message: Seq<char>) -> Step {
    Step {
        state: StreamModel { seq: next_u64(m.seq), ..m },
        events: seq![
            EventModel::Failed {
                sequence_number: m.seq,
                response: FailedModel {
                    id: m.response_id,
                    object: "response"@,
                    created_at: m.created_at,
                    status: "failed"@,
                    error: upstream_error(message),
                    output: Seq::empty(),
                },
            },
        ],
    }
}

} // verus!
