//! The converter from chunks of a Chat Completions stream to events of a
//! Responses stream.

use crate::ids::clock_nanos;
use crate::ids::clock_secs;
use crate::ids::is_clock_nanos;
use crate::ids::is_clock_secs;
use crate::ids::IdSource;
use crate::json::json_seq;
use crate::json::Json;
use crate::text::string_view;
use crate::translate::calls::call_indices;
use crate::translate::calls::calls_view;
use crate::translate::calls::put_call;
use crate::translate::calls::take_call;
use crate::translate::calls::ToolCallState;
use crate::translate::chat::ChatChunk;
use crate::translate::chat::ChatToolCall;
use crate::translate::chat::ChatUsage;
use crate::translate::events::event_text;
use crate::translate::events::format_sse_event;
use crate::translate::events::one_line_each;
use crate::translate::events::sse_event;
use crate::translate::events::sse_events;
use crate::translate::events::sse_events_of_concatenation;
use crate::translate::events::CompletedResponseBody;
use crate::translate::events::CreatedResponseBody;
use crate::translate::events::EventModel;
use crate::translate::events::FailedResponseBody;
use crate::translate::events::ResponsesEvent;
use crate::translate::events::UsageSummary;
use crate::translate::items::make_call;
use crate::translate::items::make_message_added;
use crate::translate::items::make_message_done;
use crate::translate::items::make_reasoning_added;
use crate::translate::items::make_reasoning_done;
use crate::translate::items::make_upstream_error;
use crate::translate::stream_model::add_arguments;
use crate::translate::stream_model::add_reasoning;
use crate::translate::stream_model::add_text;
use crate::translate::stream_model::announce_call;
use crate::translate::stream_model::ascending;
use crate::translate::stream_model::call_arguments;
use crate::translate::stream_model::close_call;
use crate::translate::stream_model::close_calls;
use crate::translate::stream_model::close_message;
use crate::translate::stream_model::close_reasoning;
use crate::translate::stream_model::followed_by;
use crate::translate::stream_model::in_order;
use crate::translate::stream_model::initial;
use crate::translate::stream_model::label_call;
use crate::translate::stream_model::labelled;
use crate::translate::stream_model::next_u64;
use crate::translate::stream_model::on_chunk;
use crate::translate::stream_model::on_chunk_at;
use crate::translate::stream_model::on_completed;
use crate::translate::stream_model::on_created;
use crate::translate::stream_model::on_end;
use crate::translate::stream_model::on_failed;
use crate::translate::stream_model::on_finish;
use crate::translate::stream_model::on_reasoning;
use crate::translate::stream_model::on_text;
use crate::translate::stream_model::on_tool_call;
use crate::translate::stream_model::on_tool_calls;
use crate::translate::stream_model::open_call;
use crate::translate::stream_model::open_message;
use crate::translate::stream_model::open_reasoning;
use crate::translate::stream_model::with_usage;
use crate::translate::stream_model::Reading;
use crate::translate::stream_model::Step;
use crate::translate::stream_model::StreamModel;
use serde_json::Value;
use std::collections::BTreeMap;
use vstd::prelude::*;
use vstd::string::StringExecFns;

verus! {

/// Converts the chunks of one answer of the upstream into the events that the
/// client expects.
pub struct ChatToResponsesStream {
    seq: u64,
    ids: IdSource,
    response_id: String,
    created_at: u64,
    model: String,
    message_item_id: Option<String>,
    message_output_index: u32,
    message_text_buf: String,
    reasoning_item_id: Option<String>,
    reasoning_output_index: u32,
    reasoning_text_buf: String,
    tool_calls: BTreeMap<u32, ToolCallState>,
    next_tool_output_index: u32,
    created_emitted: bool,
    final_usage: Option<UsageSummary>,
    completed_emitted: bool,
}

impl View for ChatToResponsesStream {
    type V = StreamModel;

    closed spec fn view(&self) -> StreamModel {
        StreamModel {
            seq: self.seq,
            id_count: self.ids.count,
            response_id: self.response_id@,
            created_at: self.created_at,
            model: self.model@,
            message_item_id: string_view(self.message_item_id),
            message_output_index: self.message_output_index,
            message_text: self.message_text_buf@,
            reasoning_item_id: string_view(self.reasoning_item_id),
            reasoning_output_index: self.reasoning_output_index,
            reasoning_text: self.reasoning_text_buf@,
            tool_calls: calls_view(self.tool_calls@),
            next_tool_output_index: self.next_tool_output_index,
            created_emitted: self.created_emitted,
            final_usage: self.final_usage,
            completed_emitted: self.completed_emitted,
        }
    }
}

/// Gives out the next number of a sequence; the largest is followed by 0.
pub fn next_seq(seq: &mut u64) -> (r: u64)
    ensures
        r == *old(seq),
        *final(seq) == next_u64(*old(seq)),
{
    let n: u64 = *seq;
    *seq = n.wrapping_add(1);
    n
}

/// Appends an event as it goes over the wire.
fn emit(out: &mut String, event: &ResponsesEvent)
    ensures
        final(out)@ == old(out)@ + sse_events(seq![event@]),
        one_line_each(seq![event@]),
{
    let text = format_sse_event(event);
    out.append(text.as_str());
    proof {
        let one = seq![event@];
        assert(one.drop_last() =~= Seq::<EventModel>::empty());
        assert(sse_events(one.drop_last()) =~= Seq::<char>::empty());
        assert(sse_events(one) =~= sse_event(event@));
    }
}

/// Whether a step has led to `to`, with its events appended to a text, each on
/// one line.
spec fn took(
    step: Step,
    to: ChatToResponsesStream,
    out_before: Seq<char>,
    out_after: Seq<char>,
) -> bool {
    &&& to@ == step.state
    &&& out_after == out_before + sse_events(step.events)
    &&& one_line_each(step.events)
}

proof fn lemma_no_events(out: Seq<char>)
    ensures
        out + sse_events(Seq::empty()) == out,
{
    assert(out + sse_events(Seq::empty()) =~= out);
}

proof fn lemma_followed(a: Step, b: Step, t0: Seq<char>, t1: Seq<char>, t2: Seq<char>)
    requires
        t1 == t0 + sse_events(a.events),
        t2 == t1 + sse_events(b.events),
        one_line_each(a.events),
        one_line_each(b.events),
    ensures
        t2 == t0 + sse_events(followed_by(a, b).events),
        one_line_each(followed_by(a, b).events),
{
    let all = followed_by(a, b).events;
    assert forall|i: int| 0 <= i < all.len() implies !event_text(#[trigger] all[i]).contains(
        '\n',
    ) by {
        if i < a.events.len() {
            assert(all[i] == a.events[i]);
        } else {
            assert(all[i] == b.events[i - a.events.len()]);
        }
    }
    sse_events_of_concatenation(a.events, b.events);
    assert(t2 =~= t0 + (sse_events(a.events) + sse_events(b.events)));
}

impl ChatToResponsesStream {
    /// A converter for an answer that the client knows under the name `model`,
    /// made from the clock readings `now` and `secs`. Its identifiers come from
    /// `ids`.
    pub fn new_at(model: String, ids: &mut IdSource, now: u64, secs: u64) -> (r: Self)
        ensures
            r@ == initial(model@, old(ids).count, now, secs),
            final(ids).count == r@.id_count,
    {
        let response_id = ids.gen_id("resp", now);
        let r = ChatToResponsesStream {
            seq: 0,
            ids: IdSource { count: ids.count },
            response_id,
            created_at: secs,
            model,
            message_item_id: None,
            message_output_index: 0,
            message_text_buf: String::new(),
            reasoning_item_id: None,
            reasoning_output_index: 0,
            reasoning_text_buf: String::new(),
            tool_calls: BTreeMap::new(),
            next_tool_output_index: 1,
            created_emitted: false,
            final_usage: None,
            completed_emitted: false,
        };
        proof {
            assert(calls_view(r.tool_calls@) =~= Map::empty());
        }
        r
    }

    /// A converter for an answer that the client knows under the name `model`.
    /// Its identifiers come from `ids`.
    pub fn new(model: String, ids: &mut IdSource) -> (r: Self)
        ensures
            exists|now: u64, secs: u64|
                is_clock_nanos(now) && is_clock_secs(secs) && r@ == #[trigger] initial(
                    model@,
                    old(ids).count,
                    now,
                    secs,
                ),
            final(ids).count == r@.id_count,
    {
        let now: u64 = clock_nanos();
        let secs: u64 = clock_secs();
        Self::new_at(model, ids, now, secs)
    }

    /// Gives out the first event, the first time that it is asked for.
    pub fn ensure_created(&mut self) -> (r: String)
        ensures
            final(self)@ == on_created(old(self)@).state,
            r@ == sse_events(on_created(old(self)@).events),
            one_line_each(on_created(old(self)@).events),
    {
        let mut out = String::new();
        self.emit_created(&mut out);
        proof {
            assert(Seq::<char>::empty() + out@ =~= out@);
        }
        out
    }

    fn emit_created(&mut self, out: &mut String)
        ensures
            took(on_created(old(self)@), *final(self), old(out)@, final(out)@),
    {
        if self.created_emitted {
            proof {
                lemma_no_events(out@);
            }
            return;
        }
        self.created_emitted = true;
        let output: Vec<Value> = Vec::new();
        proof {
            assert(json_seq(output@) =~= Seq::<Json>::empty());
        }
        let response = CreatedResponseBody {
            id: self.response_id.clone(),
            object: "response".to_string(),
            created_at: self.created_at,
            status: "in_progress".to_string(),
            model: self.model.clone(),
            output,
        };
        let sequence_number: u64 = next_seq(&mut self.seq);
        emit(out, &ResponsesEvent::Created { sequence_number, response });
    }

    fn take_usage(&mut self, usage: &Option<ChatUsage>)
        ensures
            final(self)@ == with_usage(old(self)@, *usage),
    {
        match usage {
            Some(u) => {
                self.final_usage = Some(
                    UsageSummary {
                        input_tokens: u.prompt_tokens,
                        output_tokens: u.completion_tokens,
                        total_tokens: u.total_tokens,
                    },
                );
            },
            None => {},
        }
    }

    fn emit_reasoning(&mut self, text: &Option<String>, now: u64, out: &mut String)
        ensures
            took(
                on_reasoning(old(self)@, string_view(*text), now),
                *final(self),
                old(out)@,
                final(out)@,
            ),
    {
        match text {
            Some(reasoning) => {
                if reasoning.as_str().is_empty() {
                    proof {
                        lemma_no_events(out@);
                    }
                    return;
                }
                let ghost t0 = out@;
                let item_id = self.begin_reasoning(now, out);
                let ghost opened = self@;
                let ghost t1 = out@;
                self.reasoning_text_buf.append(reasoning.as_str());
                let sequence_number: u64 = next_seq(&mut self.seq);
                emit(
                    out,
                    &ResponsesEvent::ReasoningTextDelta {
                        sequence_number,
                        item_id,
                        output_index: self.reasoning_output_index,
                        content_index: 0,
                        delta: reasoning.clone(),
                    },
                );
                proof {
                    assert(self@ == add_reasoning(opened, reasoning@).state);
                    lemma_followed(
                        open_reasoning(old(self)@, now),
                        add_reasoning(opened, reasoning@),
                        t0,
                        t1,
                        out@,
                    );
                }
            },
            None => {
                proof {
                    lemma_no_events(out@);
                }
            },
        }
    }

    fn begin_reasoning(&mut self, now: u64, out: &mut String) -> (item_id: String)
        ensures
            took(open_reasoning(old(self)@, now), *final(self), old(out)@, final(out)@),
            final(self)@.reasoning_item_id == Some(item_id@),
    {
        match &self.reasoning_item_id {
            Some(id) => {
                proof {
                    lemma_no_events(out@);
                }
                id.clone()
            },
            None => {
                let item_id = self.ids.gen_id("rs", now);
                self.reasoning_item_id = Some(item_id.clone());
                let sequence_number: u64 = next_seq(&mut self.seq);
                emit(
                    out,
                    &ResponsesEvent::OutputItemAdded {
                        sequence_number,
                        output_index: self.reasoning_output_index,
                        item: make_reasoning_added(item_id.as_str()),
                    },
                );
                item_id
            },
        }
    }

    fn emit_text(&mut self, text: &Option<String>, now: u64, out: &mut String)
        ensures
            took(
                on_text(old(self)@, string_view(*text), now),
                *final(self),
                old(out)@,
                final(out)@,
            ),
    {
        match text {
            Some(content) => {
                if content.as_str().is_empty() {
                    proof {
                        lemma_no_events(out@);
                    }
                    return;
                }
                let ghost t0 = out@;
                let item_id = self.begin_message(now, out);
                let ghost opened = self@;
                let ghost t1 = out@;
                self.message_text_buf.append(content.as_str());
                let sequence_number: u64 = next_seq(&mut self.seq);
                emit(
                    out,
                    &ResponsesEvent::OutputTextDelta {
                        sequence_number,
                        item_id,
                        output_index: self.message_output_index,
                        content_index: 0,
                        delta: content.clone(),
                    },
                );
                proof {
                    assert(self@ == add_text(opened, content@).state);
                    lemma_followed(
                        open_message(old(self)@, now),
                        add_text(opened, content@),
                        t0,
                        t1,
                        out@,
                    );
                }
            },
            None => {
                proof {
                    lemma_no_events(out@);
                }
            },
        }
    }

    fn begin_message(&mut self, now: u64, out: &mut String) -> (item_id: String)
        ensures
            took(open_message(old(self)@, now), *final(self), old(out)@, final(out)@),
            final(self)@.message_item_id == Some(item_id@),
    {
        match &self.message_item_id {
            Some(id) => {
                proof {
                    lemma_no_events(out@);
                }
                id.clone()
            },
            None => {
                let item_id = self.ids.gen_id("msg", now);
                self.message_item_id = Some(item_id.clone());
                let sequence_number: u64 = next_seq(&mut self.seq);
                emit(
                    out,
                    &ResponsesEvent::OutputItemAdded {
                        sequence_number,
                        output_index: self.message_output_index,
                        item: make_message_added(item_id.as_str()),
                    },
                );
                item_id
            },
        }
    }

    fn close_open_reasoning(&mut self, out: &mut String)
        ensures
            took(close_reasoning(old(self)@), *final(self), old(out)@, final(out)@),
    {
        match self.reasoning_item_id.take() {
            Some(item_id) => {
                let text = self.reasoning_text_buf.clone();
                self.reasoning_text_buf = String::new();
                let sequence_number: u64 = next_seq(&mut self.seq);
                emit(
                    out,
                    &ResponsesEvent::OutputItemDone {
                        sequence_number,
                        output_index: self.reasoning_output_index,
                        item: make_reasoning_done(item_id.as_str(), text.as_str()),
                    },
                );
            },
            None => {
                proof {
                    lemma_no_events(out@);
                }
            },
        }
    }

    fn close_open_message(&mut self, out: &mut String)
        ensures
            took(close_message(old(self)@), *final(self), old(out)@, final(out)@),
    {
        match self.message_item_id.take() {
            Some(item_id) => {
                let text = self.message_text_buf.clone();
                self.message_text_buf = String::new();
                let sequence_number: u64 = next_seq(&mut self.seq);
                emit(
                    out,
                    &ResponsesEvent::OutputItemDone {
                        sequence_number,
                        output_index: self.message_output_index,
                        item: make_message_done(item_id.as_str(), text.as_str()),
                    },
                );
            },
            None => {
                proof {
                    lemma_no_events(out@);
                }
            },
        }
    }

    /// Takes the tool call that a piece belongs to out of the open ones, or
    /// begins it.
    fn take_or_begin_call(&mut self, tc: &ChatToolCall, now: u64) -> (r: ToolCallState)
        ensures
            ({
                let opened = open_call(old(self)@, *tc, now);
                &&& r@ == opened.tool_calls[tc.index]
                &&& final(self)@ == (StreamModel {
                    tool_calls: old(self)@.tool_calls.remove(tc.index),
                    ..opened
                })
            }),
    {
        match take_call(&mut self.tool_calls, tc.index) {
            Some(state) => state,
            None => {
                let output_index: u32 = self.next_tool_output_index;
                self.next_tool_output_index = output_index.wrapping_add(1);
                let item_id = self.ids.gen_id("fc", now);
                let call_id = match &tc.id {
                    Some(id) => id.clone(),
                    None => self.ids.gen_id("call", now),
                };
                ToolCallState {
                    item_id,
                    call_id,
                    name: String::new(),
                    arguments_buf: String::new(),
                    output_index,
                    added_emitted: false,
                }
            },
        }
    }

    /// One piece of a tool call.
    fn emit_tool_call(&mut self, tc: &ChatToolCall, now: u64, out: &mut String)
        ensures
            took(on_tool_call(old(self)@, *tc, now), *final(self), old(out)@, final(out)@),
    {
        let ghost m0 = self@;
        let ghost t0 = out@;
        let mut state = self.take_or_begin_call(tc, now);
        label(&mut state, tc);
        let ghost m1 = label_call(m0, *tc, now);
        let ghost announced = announce_call(m1, tc.index);
        if !state.name.as_str().is_empty() && !state.added_emitted {
            state.added_emitted = true;
            let item = make_call(
                state.item_id.as_str(),
                state.call_id.as_str(),
                state.name.as_str(),
                "",
                "in_progress",
            );
            let sequence_number: u64 = next_seq(&mut self.seq);
            emit(
                out,
                &ResponsesEvent::OutputItemAdded {
                    sequence_number,
                    output_index: state.output_index,
                    item,
                },
            );
        } else {
            proof {
                lemma_no_events(out@);
            }
        }
        let ghost t1 = out@;
        proof {
            assert(state@ == announced.state.tool_calls[tc.index]);
            assert(t1 == t0 + sse_events(announced.events));
        }
        let arguments = match &tc.function {
            Some(f) => &f.arguments,
            None => &None,
        };
        let ghost added = add_arguments(announced.state, tc.index, call_arguments(*tc));
        match arguments {
            Some(args) => {
                if !args.as_str().is_empty() {
                    state.arguments_buf.append(args.as_str());
                    let sequence_number: u64 = next_seq(&mut self.seq);
                    emit(
                        out,
                        &ResponsesEvent::FunctionCallArgumentsDelta {
                            sequence_number,
                            item_id: state.item_id.clone(),
                            output_index: state.output_index,
                            delta: args.clone(),
                        },
                    );
                } else {
                    proof {
                        lemma_no_events(out@);
                    }
                }
            },
            None => {
                proof {
                    lemma_no_events(out@);
                }
            },
        }
        proof {
            assert(state@ == added.state.tool_calls[tc.index]);
            assert(out@ == t1 + sse_events(added.events));
            lemma_followed(announced, added, t0, t1, out@);
            assert(m0.tool_calls.remove(tc.index).insert(tc.index, state@)
                =~= added.state.tool_calls);
        }
        put_call(&mut self.tool_calls, tc.index, state);
    }

    fn emit_tool_calls(&mut self, calls: &Vec<ChatToolCall>, now: u64, out: &mut String)
        ensures
            took(on_tool_calls(old(self)@, calls@, now), *final(self), old(out)@, final(out)@),
    {
        let mut i: usize = 0;
        proof {
            lemma_no_events(out@);
            assert(calls@.take(0) =~= Seq::<ChatToolCall>::empty());
        }
        while i < calls.len()
            invariant
                i <= calls.len(),
                took(
                    on_tool_calls(old(self)@, calls@.take(i as int), now),
                    *self,
                    old(out)@,
                    out@,
                ),
            decreases calls.len() - i,
        {
            let ghost before = on_tool_calls(old(self)@, calls@.take(i as int), now);
            let ghost t1 = out@;
            self.emit_tool_call(&calls[i], now, out);
            proof {
                assert(calls@.take(i + 1).drop_last() =~= calls@.take(i as int));
                lemma_followed(
                    before,
                    on_tool_call(before.state, calls@[i as int], now),
                    old(out)@,
                    t1,
                    out@,
                );
            }
            i = i + 1;
        }
        proof {
            assert(calls@.take(i as int) =~= calls@);
        }
    }

    fn close_open_call(&mut self, index: u32, out: &mut String)
        requires
            old(self)@.tool_calls.contains_key(index),
        ensures
            took(close_call(old(self)@, index), *final(self), old(out)@, final(out)@),
    {
        match take_call(&mut self.tool_calls, index) {
            Some(state) => {
                if state.added_emitted {
                    let item = make_call(
                        state.item_id.as_str(),
                        state.call_id.as_str(),
                        state.name.as_str(),
                        state.arguments_buf.as_str(),
                        "completed",
                    );
                    let sequence_number: u64 = next_seq(&mut self.seq);
                    emit(
                        out,
                        &ResponsesEvent::OutputItemDone {
                            sequence_number,
                            output_index: state.output_index,
                            item,
                        },
                    );
                } else {
                    proof {
                        lemma_no_events(out@);
                    }
                }
            },
            None => {},
        }
    }

    fn close_open_calls(&mut self, out: &mut String)
        ensures
            took(
                close_calls(old(self)@, in_order(old(self)@.tool_calls.dom())),
                *final(self),
                old(out)@,
                final(out)@,
            ),
    {
        let indices = call_indices(&self.tool_calls);
        let mut i: usize = 0;
        proof {
            lemma_no_events(out@);
            assert(indices@.take(0) =~= Seq::<u32>::empty());
        }
        while i < indices.len()
            invariant
                i <= indices.len(),
                ascending(indices@),
                indices@.to_set() == old(self)@.tool_calls.dom(),
                took(
                    close_calls(old(self)@, indices@.take(i as int)),
                    *self,
                    old(out)@,
                    out@,
                ),
                forall|j: int|
                    i <= j < indices@.len() ==> self@.tool_calls.contains_key(
                        #[trigger] indices@[j],
                    ),
            decreases indices.len() - i,
        {
            let ghost before = close_calls(old(self)@, indices@.take(i as int));
            let ghost t1 = out@;
            let ghost calls = self@.tool_calls;
            self.close_open_call(indices[i], out);
            proof {
                assert(indices@.take(i + 1).drop_last() =~= indices@.take(i as int));
                lemma_followed(
                    before,
                    close_call(before.state, indices@[i as int]),
                    old(out)@,
                    t1,
                    out@,
                );
                assert(self@.tool_calls == calls.remove(indices@[i as int]));
            }
            i = i + 1;
        }
        proof {
            assert(indices@.take(i as int) =~= indices@);
        }
    }

    /// Gives out the completion, the first time that it is asked for.
    pub fn emit_completed(&mut self) -> (r: String)
        ensures
            final(self)@ == on_completed(old(self)@).state,
            r@ == sse_events(on_completed(old(self)@).events),
            one_line_each(on_completed(old(self)@).events),
    {
        let mut out = String::new();
        self.complete(&mut out);
        proof {
            assert(Seq::<char>::empty() + out@ =~= out@);
        }
        out
    }

    fn complete(&mut self, out: &mut String)
        ensures
            took(on_completed(old(self)@), *final(self), old(out)@, final(out)@),
    {
        if self.completed_emitted {
            proof {
                lemma_no_events(out@);
            }
            return;
        }
        self.completed_emitted = true;
        let output: Vec<Value> = Vec::new();
        proof {
            assert(json_seq(output@) =~= Seq::<Json>::empty());
        }
        let response = CompletedResponseBody {
            id: self.response_id.clone(),
            object: "response".to_string(),
            created_at: self.created_at,
            status: "completed".to_string(),
            model: self.model.clone(),
            output,
            usage: self.final_usage,
        };
        let sequence_number: u64 = next_seq(&mut self.seq);
        emit(out, &ResponsesEvent::Completed { sequence_number, response });
    }

    fn finish(&mut self, out: &mut String)
        ensures
            took(on_finish(old(self)@), *final(self), old(out)@, final(out)@),
    {
        let ghost t0 = out@;
        self.close_open_reasoning(out);
        let ghost a = close_reasoning(old(self)@);
        let ghost t1 = out@;
        self.close_open_message(out);
        let ghost t2 = out@;
        let ghost b = followed_by(a, close_message(a.state));
        proof {
            lemma_followed(a, close_message(a.state), t0, t1, t2);
        }
        self.close_open_calls(out);
        let ghost t3 = out@;
        let ghost closed = close_calls(b.state, in_order(b.state.tool_calls.dom()));
        let ghost c = followed_by(b, closed);
        proof {
            lemma_followed(b, closed, t0, t2, t3);
        }
        self.complete(out);
        proof {
            lemma_followed(c, on_completed(c.state), t0, t3, out@);
        }
    }

    /// Takes in a chunk that was read at the time `now`, and gives out its
    /// events.
    pub fn handle_chunk_at(&mut self, chunk: &ChatChunk, ids: &mut IdSource, now: u64) -> (r:
        String)
        ensures
            ({
                let at = Reading { now, count: old(ids).count };
                let step = on_chunk_at(old(self)@, *chunk, at);
                &&& final(self)@ == step.state
                &&& final(ids).count == step.state.id_count
                &&& r@ == sse_events(step.events)
                &&& one_line_each(step.events)
            }),
    {
        self.ids.count = ids.count;
        let out = self.convert_chunk(chunk, now);
        ids.count = self.ids.count;
        out
    }

    fn convert_chunk(&mut self, chunk: &ChatChunk, now: u64) -> (r: String)
        ensures
            final(self)@ == on_chunk(old(self)@, *chunk, now).state,
            r@ == sse_events(on_chunk(old(self)@, *chunk, now).events),
            one_line_each(on_chunk(old(self)@, *chunk, now).events),
    {
        let mut out = String::new();
        let ghost t0 = out@;
        self.emit_created(&mut out);
        self.take_usage(&chunk.usage);
        let ghost a = on_created(old(self)@);
        let ghost b = Step { state: with_usage(a.state, chunk.usage), ..a };
        let ghost t1 = out@;
        proof {
            assert(Seq::<char>::empty() + sse_events(b.events) =~= sse_events(b.events));
        }
        if chunk.choices.len() == 0 {
            return out;
        }
        let choice = &chunk.choices[0];

        self.emit_reasoning(&choice.delta.reasoning_content, now, &mut out);
        let ghost rs = on_reasoning(b.state, string_view(choice.delta.reasoning_content), now);
        let ghost c = followed_by(b, rs);
        let ghost t2 = out@;
        proof {
            lemma_followed(b, rs, t0, t1, t2);
        }

        self.emit_text(&choice.delta.content, now, &mut out);
        let ghost tx = on_text(c.state, string_view(choice.delta.content), now);
        let ghost d = followed_by(c, tx);
        let ghost t3 = out@;
        proof {
            lemma_followed(c, tx, t0, t2, t3);
        }

        let ghost mut e = d;
        match &choice.delta.tool_calls {
            Some(calls) => {
                self.emit_tool_calls(calls, now, &mut out);
                proof {
                    let tc = on_tool_calls(d.state, calls@, now);
                    e = followed_by(d, tc);
                    lemma_followed(d, tc, t0, t3, out@);
                }
            },
            None => {},
        }

        let ghost t4 = out@;
        match &choice.finish_reason {
            Some(_) => {
                self.finish(&mut out);
                proof {
                    let f = on_finish(e.state);
                    lemma_followed(e, f, t0, t4, out@);
                    assert(t0 + sse_events(followed_by(e, f).events) =~= sse_events(
                        followed_by(e, f).events,
                    ));
                }
            },
            None => {
                proof {
                    assert(t0 + sse_events(e.events) =~= sse_events(e.events));
                }
            },
        }
        out
    }

    /// Takes in a chunk, and gives out its events. The identifiers that it makes
    /// come from `ids`.
    pub fn handle_chunk(&mut self, chunk: &ChatChunk, ids: &mut IdSource) -> (r: String)
        ensures
            exists|at: Reading|
                {
                    let step = #[trigger] on_chunk_at(old(self)@, *chunk, at);
                    &&& is_clock_nanos(at.now)
                    &&& at.count == old(ids).count
                    &&& final(self)@ == step.state
                    &&& final(ids).count == step.state.id_count
                    &&& r@ == sse_events(step.events)
                    &&& one_line_each(step.events)
                },
    {
        let now: u64 = clock_nanos();
        let ghost at = Reading { now, count: ids.count };
        let ghost step = on_chunk_at(self@, *chunk, at);
        self.handle_chunk_at(chunk, ids, now)
    }

    /// Gives up what is still open, and gives out the completion where it has
    /// not been given out yet.
    pub fn end(&mut self) -> (r: String)
        ensures
            final(self)@ == on_end(old(self)@).state,
            r@ == sse_events(on_end(old(self)@).events),
            one_line_each(on_end(old(self)@).events),
    {
        self.reasoning_item_id = None;
        self.message_item_id = None;
        self.emit_completed()
    }

    /// Gives out the event of a failure.
    pub fn emit_failed(&mut self, error_message: &str) -> (r: String)
        ensures
            final(self)@ == on_failed(old(self)@, error_message@).state,
            r@ == sse_events(on_failed(old(self)@, error_message@).events),
            one_line_each(on_failed(old(self)@, error_message@).events),
    {
        let output: Vec<Value> = Vec::new();
        proof {
            assert(json_seq(output@) =~= Seq::<Json>::empty());
        }
        let response = FailedResponseBody {
            id: self.response_id.clone(),
            object: "response".to_string(),
            created_at: self.created_at,
            status: "failed".to_string(),
            error: make_upstream_error(error_message),
            output,
        };
        let sequence_number: u64 = next_seq(&mut self.seq);
        let mut out = String::new();
        emit(&mut out, &ResponsesEvent::Failed { sequence_number, response });
        proof {
            assert(Seq::<char>::empty() + out@ =~= out@);
        }
        out
    }
}

/// Takes the id and the name of a piece into its tool call.
fn label(state: &mut ToolCallState, tc: &ChatToolCall)
    ensures
        final(state)@ == labelled(old(state)@, *tc),
{
    match &tc.id {
        Some(id) => {
            if !id.as_str().is_empty() {
                state.call_id = id.clone();
            }
        },
        None => {},
    }
    match &tc.function {
        Some(f) => match &f.name {
            Some(name) => {
                if state.name.as_str().is_empty() {
                    state.name = name.clone();
                }
            },
            None => {},
        },
        None => {},
    }
}

} // verus!
