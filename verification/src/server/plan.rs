//! What is done with a Responses request.

use crate::ids::IdSource;
use crate::json::get;
use crate::json::json;
use crate::json::json_from_slice;
use crate::json::value_from_slice;
use crate::json::Json;
use crate::server::reply::error_body;
use crate::server::reply::error_response;
use crate::server::reply::failed_sse_response;
use crate::server::reply::json_reply;
use crate::server::reply::reports_failure;
use crate::server::reply::Reply;
use crate::server::reply::ReplyModel;
use crate::translate::chat::ChatChunk;
use crate::translate::events::EventModel;
use crate::translate::request::chat_request;
use crate::translate::request::incoming_model;
use crate::translate::request::translate_request;
use crate::translate::request::TranslateError;
use crate::translate::request_laws::backend_model_is_forced;
use crate::translate::stream_laws::a_stream_is_one_response;
use crate::translate::stream_laws::whole_run;
use crate::translate::stream_model::initial;
use crate::translate::stream_model::next_u64;
use crate::translate::stream_model::Reading;
use serde_json::Value;
use vstd::prelude::*;
use vstd::string::StringExecFns;

verus! {

/// What is done with a request.
pub enum Plan {
    /// It is refused.
    Refuse(Reply),
    /// It is sent on to the upstream.
    Forward(Forward),
}

/// A request on its way to the upstream.
pub struct Forward {
    /// The body for the upstream.
    pub chat_body: Value,
    /// The model name that the answer carries.
    pub model: String,
    /// Whether the client wants the answer as a stream.
    pub want_stream: bool,
}

/// What is done with a request.
pub enum PlanModel {
    Refuse(ReplyModel),
    Forward(ForwardModel),
}

/// A request on its way to the upstream.
pub struct ForwardModel {
    pub chat_body: Json,
    pub model: Seq<char>,
    pub want_stream: bool,
}

impl View for Plan {
    type V = PlanModel;

    open spec fn view(&self) -> PlanModel {
        match *self {
            Plan::Refuse(reply) => PlanModel::Refuse(reply@),
            Plan::Forward(f) => PlanModel::Forward(
                ForwardModel {
                    chat_body: json(f.chat_body),
                    model: f.model@,
                    want_stream: f.want_stream,
                },
            ),
        }
    }
}

/// Whether a request asks for a stream; one that does not say so does.
pub open spec fn wants_stream(body: Json) -> bool {
    match body.get("stream"@) {
        Some(j) => match j.as_bool() {
            Some(b) => b,
            None => true,
        },
        None => true,
    }
}

/// What is done with a request that was read as `parsed`.
pub open spec fn planned(
    parsed: Result<Json, Seq<char>>,
    backend_model: Seq<char>,
    enable_thinking: bool,
) -> PlanModel {
    match parsed {
        Err(e) => PlanModel::Refuse(json_reply(400, error_body("invalid JSON body: "@ + e))),
        Ok(Json::Object(request)) => PlanModel::Forward(
            ForwardModel {
                chat_body: Json::Object(chat_request(request, backend_model, enable_thinking)),
                model: incoming_model(Json::Object(request)),
                want_stream: wants_stream(Json::Object(request)),
            },
        ),
        Ok(_) => PlanModel::Refuse(
            json_reply(
                400,
                error_body("translation error: "@ + TranslateError::NotAnObject.text()),
            ),
        ),
    }
}

/// What the outcome of reading a body holds.
pub open spec fn parsed_view(parsed: Result<Value, String>) -> Result<Json, Seq<char>> {
    match parsed {
        Ok(v) => Ok(json(v)),
        Err(e) => Err(e@),
    }
}

/// Reads whether a request asks for a stream.
fn want_stream(body: &Value) -> (r: bool)
    ensures
        r == wants_stream(json(*body)),
{
    match get(body, "stream") {
        Some(j) => match j.as_bool() {
            Some(b) => b,
            None => true,
        },
        None => true,
    }
}

/// Decides what is done with a request that was read as `parsed`.
pub fn plan_parsed(
    parsed: Result<Value, String>,
    backend_model: &str,
    enable_thinking: bool,
) -> (r: Plan)
    ensures
        r@ == planned(parsed_view(parsed), backend_model@, enable_thinking),
{
    match parsed {
        Err(e) => {
            let mut message = "invalid JSON body: ".to_string();
            message.append(e.as_str());
            Plan::Refuse(error_response(400, message.as_str()))
        },
        Ok(body) => match translate_request(&body, backend_model, enable_thinking) {
            Ok((chat_body, model)) => Plan::Forward(
                Forward { chat_body, model, want_stream: want_stream(&body) },
            ),
            Err(e) => {
                let mut message = "translation error: ".to_string();
                message.append(e.message().as_str());
                Plan::Refuse(error_response(400, message.as_str()))
            },
        },
    }
}

/// Decides what is done with the request whose body is `bytes`.
pub fn plan_responses(bytes: &[u8], backend_model: &str, enable_thinking: bool) -> (r: Plan)
    ensures
        r@ == planned(json_from_slice(bytes@), backend_model@, enable_thinking),
{
    plan_parsed(value_from_slice(bytes), backend_model, enable_thinking)
}

/// What is done once the upstream has answered with a status.
#[derive(Clone, Copy, PartialEq, Eq, Structural)]
pub enum NextStep {
    /// The failure is reported.
    ReportFailure,
    /// The answer is put together and sent as a whole.
    Collect,
    /// The answer is converted as it comes.
    Stream,
}

/// Whether a status says that a request succeeded.
pub open spec fn is_success(status: u16) -> bool {
    200 <= status < 300
}

/// Decides what is done once the upstream has answered with `status`.
pub fn next_step(status: u16, want_stream: bool) -> (r: NextStep)
    ensures
        r == if !is_success(status) {
            NextStep::ReportFailure
        } else if want_stream {
            NextStep::Stream
        } else {
            NextStep::Collect
        },
{
    if status < 200 || status >= 300 {
        NextStep::ReportFailure
    } else if want_stream {
        NextStep::Stream
    } else {
        NextStep::Collect
    }
}

/// The reply where the upstream could not be reached.
pub fn connect_failure(model: &str, error: &str, ids: &mut IdSource) -> (r: Reply)
    ensures
        reports_failure(r@, model@, "upstream connect error: "@ + error@, old(ids).count),
        final(ids).count == next_u64(old(ids).count),
{
    let mut message = "upstream connect error: ".to_string();
    message.append(error);
    failed_sse_response(model, message.as_str(), ids)
}

/// What is said of an upstream that answered with a status that is no success.
pub open spec fn status_message(status: Seq<char>, body: Seq<char>) -> Seq<char> {
    "upstream "@ + status + ": "@ + body
}

/// The reply where the upstream answered with a status that is no success.
pub fn status_failure(model: &str, status: &str, body: &str, ids: &mut IdSource) -> (r: Reply)
    ensures
        reports_failure(r@, model@, status_message(status@, body@), old(ids).count),
        final(ids).count == next_u64(old(ids).count),
{
    let mut message = "upstream ".to_string();
    message.append(status);
    message.append(": ");
    message.append(body);
    proof {
        assert(message@ == status_message(status@, body@));
    }
    failed_sse_response(model, message.as_str(), ids)
}

/// A request is refused exactly where its body is no JSON object.
pub proof fn refused_exactly_where_no_object(
    parsed: Result<Json, Seq<char>>,
    backend_model: Seq<char>,
    enable_thinking: bool,
)
    ensures
        planned(parsed, backend_model, enable_thinking) is Forward <==> (parsed is Ok
            && parsed->Ok_0 is Object),
        planned(parsed, backend_model, enable_thinking) matches PlanModel::Refuse(r)
            ==> r.status == 400,
{
}

/// The bridge cannot be seen: the upstream is asked for the backend model,
/// whatever the client asked for, and every response that the answer announces
/// or completes carries the name that the client asked for.
pub proof fn the_bridge_cannot_be_seen(
    request: Map<Seq<char>, Json>,
    backend_model: Seq<char>,
    enable_thinking: bool,
    count: u64,
    now: u64,
    secs: u64,
    chunks: Seq<ChatChunk>,
    readings: Seq<Reading>,
)
    ensures
        ({
            let plan = planned(Ok(Json::Object(request)), backend_model, enable_thinking);
            let forward = plan->Forward_0;
            let events = whole_run(initial(forward.model, count, now, secs), chunks, readings).events;
            &&& plan is Forward
            &&& forward.chat_body.get("model"@) == Some(Json::Str(backend_model))
            &&& forall|i: int|
                0 <= i < events.len() ==> match #[trigger] events[i] {
                    EventModel::Created { response, .. } => response.model == incoming_model(
                        Json::Object(request),
                    ),
                    EventModel::Completed { response, .. } => response.model == incoming_model(
                        Json::Object(request),
                    ),
                    _ => true,
                }
        }),
{
    backend_model_is_forced(request, backend_model, enable_thinking);
    let model = incoming_model(Json::Object(request));
    a_stream_is_one_response(model, count, now, secs, chunks, readings);
}

} // verus!
