//! Replies to the client.

use crate::ids::clock_nanos;
use crate::ids::clock_secs;
use crate::ids::is_clock_nanos;
use crate::ids::is_clock_secs;
use crate::ids::IdSource;
use crate::json::json;
use crate::json::json_text;
use crate::json::object_value;
use crate::json::put;
use crate::json::text_value;
use crate::json::value_text;
use crate::json::Json;
use crate::sse::DONE_LINE;
use crate::translate::events::one_line_each;
use crate::translate::events::sse_events;
use crate::translate::events::EventModel;
use crate::translate::stream::ChatToResponsesStream;
use crate::translate::stream_model::followed_by;
use crate::translate::stream_model::initial;
use crate::translate::stream_model::next_u64;
use crate::translate::stream_model::on_created;
use crate::translate::stream_model::on_failed;
use crate::translate::stream_model::upstream_error;
use crate::translate::stream_model::Step;
use serde_json::Map as JsonMap;
use serde_json::Value;
use vstd::prelude::*;
use vstd::string::StringExecFns;

verus! {

/// A whole reply.
pub struct Reply {
    pub status: u16,
    /// The name and the value of each header.
    pub headers: Vec<(String, String)>,
    pub body: String,
}

/// A whole reply.
pub struct ReplyModel {
    pub status: u16,
    pub headers: Seq<(Seq<char>, Seq<char>)>,
    pub body: Seq<char>,
}

/// What headers say.
pub open spec fn headers_view(headers: Seq<(String, String)>) -> Seq<(Seq<char>, Seq<char>)> {
    headers.map_values(|h: (String, String)| (h.0@, h.1@))
}

impl View for Reply {
    type V = ReplyModel;

    open spec fn view(&self) -> ReplyModel {
        ReplyModel {
            status: self.status,
            headers: headers_view(self.headers@),
            body: self.body@,
        }
    }
}

/// A reply with a JSON body.
pub open spec fn json_reply(status: u16, body: Json) -> ReplyModel {
    ReplyModel {
        status,
        headers: seq![("content-type"@, "application/json"@)],
        body: json_text(body),
    }
}

/// The headers of a stream of events.
pub open spec fn stream_headers() -> Seq<(Seq<char>, Seq<char>)> {
    seq![
        ("content-type"@, "text/event-stream"@),
        ("cache-control"@, "no-cache"@),
        ("connection"@, "keep-alive"@),
        ("X-Accel-Buffering"@, "no"@),
    ]
}

/// A reply with a stream of events that is there as a whole.
pub open spec fn stream_reply(body: Seq<char>) -> ReplyModel {
    ReplyModel { status: 200, headers: stream_headers(), body }
}

/// What an error is reported as.
pub open spec fn error_body(message: Seq<char>) -> Json {
    Json::Object(
        map!["error"@ => Json::Object(map!["message"@ => Json::Str(message)])],
    )
}

/// The steps of an answer that fails before it has begun.
pub open spec fn failed_steps(model: Seq<char>, message: Seq<char>, count: u64, now: u64, secs: u64)
    -> Step {
    let created = on_created(initial(model, count, now, secs));
    followed_by(created, on_failed(created.state, message))
}

/// The reply that reports a failure of the upstream.
pub open spec fn failed_reply(
    model: Seq<char>,
    message: Seq<char>,
    count: u64,
    now: u64,
    secs: u64,
) -> ReplyModel {
    stream_reply(sse_events(failed_steps(model, message, count, now, secs).events) + DONE_LINE@)
}

/// Adds a header.
fn add_header(headers: &mut Vec<(String, String)>, name: &str, value: &str)
    ensures
        headers_view(final(headers)@) == headers_view(old(headers)@).push((name@, value@)),
{
    headers.push((name.to_string(), value.to_string()));
    proof {
        assert(headers_view(headers@) =~= headers_view(old(headers)@).push((name@, value@)));
    }
}

/// The headers of a stream of events.
pub fn sse_headers() -> (r: Vec<(String, String)>)
    ensures
        headers_view(r@) == stream_headers(),
{
    let mut headers: Vec<(String, String)> = Vec::new();
    add_header(&mut headers, "content-type", "text/event-stream");
    add_header(&mut headers, "cache-control", "no-cache");
    add_header(&mut headers, "connection", "keep-alive");
    add_header(&mut headers, "X-Accel-Buffering", "no");
    proof {
        assert(headers_view(headers@) =~= stream_headers());
    }
    headers
}

/// A reply with a JSON body.
pub fn json_response(status: u16, body: &Value) -> (r: Reply)
    ensures
        r@ == json_reply(status, json(*body)),
{
    let mut headers: Vec<(String, String)> = Vec::new();
    add_header(&mut headers, "content-type", "application/json");
    let r = Reply { status, headers, body: value_text(body) };
    proof {
        assert(r@.headers =~= json_reply(status, json(*body)).headers);
    }
    r
}

/// The reply that reports an error.
pub fn error_response(status: u16, message: &str) -> (r: Reply)
    ensures
        r@ == json_reply(status, error_body(message@)),
{
    let mut error = JsonMap::new();
    put(&mut error, "message", text_value(message));
    let mut body = JsonMap::new();
    put(&mut body, "error", object_value(error));
    proof {
        assert(crate::json::entries(body) =~= error_body(message@)->Object_0);
    }
    json_response(status, &object_value(body))
}

/// The reply that reports a failure of the upstream as a stream of events, made
/// from the clock readings `now` and `secs`. Its identifier comes from `ids`.
pub fn failed_sse_response_at(
    model: &str,
    message: &str,
    ids: &mut IdSource,
    now: u64,
    secs: u64,
) -> (r: Reply)
    ensures
        r@ == failed_reply(model@, message@, old(ids).count, now, secs),
        one_line_each(failed_steps(model@, message@, old(ids).count, now, secs).events),
        final(ids).count == next_u64(old(ids).count),
{
    let ghost count = ids.count;
    let mut converter = ChatToResponsesStream::new_at(model.to_string(), ids, now, secs);
    let mut body = converter.ensure_created();
    let failed = converter.emit_failed(message);
    body.append(failed.as_str());
    body.append(DONE_LINE);
    proof {
        let created = on_created(initial(model@, count, now, secs));
        crate::translate::events::sse_events_of_concatenation(
            created.events,
            on_failed(created.state, message@).events,
        );
        let events = failed_steps(model@, message@, count, now, secs).events;
        let n = created.events.len();
        assert forall|i: int| 0 <= i < events.len() implies !crate::translate::events::event_text(
            #[trigger] events[i],
        ).contains('\n') by {
            if i < n {
                assert(events[i] == created.events[i]);
            } else {
                assert(events[i] == on_failed(created.state, message@).events[i - n]);
            }
        }
    }
    Reply { status: 200, headers: sse_headers(), body }
}

/// Whether a reply reports a failure of the upstream, with an identifier and a
/// time that are made from readings of the clock, after `count` identifiers.
pub open spec fn reports_failure(
    r: ReplyModel,
    model: Seq<char>,
    message: Seq<char>,
    count: u64,
) -> bool {
    exists|now: u64, secs: u64|
        {
            &&& is_clock_nanos(now)
            &&& is_clock_secs(secs)
            &&& r == #[trigger] failed_reply(model, message, count, now, secs)
            &&& one_line_each(failed_steps(model, message, count, now, secs).events)
        }
}

/// The reply that reports a failure of the upstream as a stream of events. Its
/// identifier comes from `ids`.
pub fn failed_sse_response(model: &str, message: &str, ids: &mut IdSource) -> (r: Reply)
    ensures
        reports_failure(r@, model@, message@, old(ids).count),
        final(ids).count == next_u64(old(ids).count),
{
    let now: u64 = clock_nanos();
    let secs: u64 = clock_secs();
    failed_sse_response_at(model, message, ids, now, secs)
}

/// The reply where no other can be made.
pub fn fallback_body() -> (r: Reply)
    ensures
        r@.status == 200,
        r@.headers.len() == 0,
        r@.body == "internal proxy error"@,
{
    Reply { status: 200, headers: Vec::new(), body: "internal proxy error".to_string() }
}

/// What a health check is answered with.
pub fn handle_health() -> (r: &'static str)
    ensures
        r@ == "ok\n"@,
{
    "ok\n"
}

/// An answer that fails before it has begun is still a whole answer: it announces
/// a response under the name that the client used, and says that this response
/// has failed, and why.
pub proof fn a_failure_is_a_whole_answer(
    model: Seq<char>,
    message: Seq<char>,
    count: u64,
    now: u64,
    secs: u64,
)
    ensures
        ({
            let events = failed_steps(model, message, count, now, secs).events;
            let id = initial(model, count, now, secs).response_id;
            &&& events.len() == 2
            &&& events[0] matches EventModel::Created { sequence_number, response }
                && sequence_number == 0 && response.id == id && response.model == model
            &&& events[1] matches EventModel::Failed { sequence_number, response }
                && sequence_number == 1 && response.id == id && response.status == "failed"@
                && response.error == upstream_error(message)
        }),
{
}

} // verus!
