//! What decisions and replies say.

use crate::json::json_text;
use crate::json::Json;
use crate::json_laws::array_at;
use crate::json_laws::at;
use crate::json_laws::has_only;
use crate::json_laws::says;
use crate::json_laws::str_at;
use crate::json_laws::str_or;
use crate::server::forward::passed_on;
use crate::server::forward::rerouted;
use crate::server::models::ids_among;
use crate::server::models::ids_in;
use crate::server::plan::is_success;
use crate::server::plan::planned;
use crate::server::plan::status_message;
use crate::server::plan::wants_stream;
use crate::server::plan::PlanModel;
use crate::server::reply::error_body;
use crate::server::reply::failed_reply;
use crate::server::reply::failed_steps;
use crate::server::reply::json_reply;
use crate::server::reply::ReplyModel;
use crate::sse::line_events;
use crate::text::lines;
use crate::translate::described_laws::a_failure_says_why;
use crate::translate::described_laws::lemma_id;
use crate::translate::event_laws::an_event_is_written_as_its_json;
use crate::translate::event_laws::event_json;
use crate::translate::event_laws::lemma_event_names_differ;
use crate::translate::event_laws::lemma_response_names_differ;
use crate::translate::events::one_line_each;
use crate::translate::request::chat_request;
use crate::translate::stream_model::initial;
use crate::translate::stream_model::on_created;
use crate::translate::wire_laws::a_whole_answer_is_read_back;
use crate::translate::wire_laws::payloads;
use vstd::prelude::*;

verus! {

/// Whether a value reports an error in these words, and nothing else.
pub open spec fn is_error(j: Json, message: Seq<char>) -> bool {
    &&& has_only(j, set!["error"@])
    &&& has_only(at(j, "error"@)->0, set!["message"@])
    &&& str_at(at(j, "error"@)->0, "message"@) == Some(message)
}

/// Whether a reply has this status and carries this value as JSON.
pub open spec fn carries(r: ReplyModel, status: u16, j: Json) -> bool {
    &&& r.status == status
    &&& r.headers == seq![("content-type"@, "application/json"@)]
    &&& r.body == json_text(j)
}

/// Whether a reply reports an error, with this status and in these words.
pub open spec fn refuses(r: ReplyModel, status: u16, message: Seq<char>) -> bool {
    exists|j: Json| is_error(j, message) && #[trigger] carries(r, status, j)
}

/// An error is reported in the words that it was given, with the status that it
/// was given.
pub proof fn an_error_says_what_it_was_given(status: u16, message: Seq<char>)
    ensures
        refuses(json_reply(status, error_body(message)), status, message),
{
    let j = error_body(message);
    assert(j->Object_0.dom() =~= set!["error"@]);
    assert(at(j, "error"@)->0->Object_0.dom() =~= set!["message"@]);
    assert(carries(json_reply(status, j), status, j));
}

/// Whether a request asks for a stream: it does, unless it says that it does not.
pub proof fn a_stream_is_wanted_unless_refused(body: Json)
    ensures
        wants_stream(body) <==> at(body, "stream"@) != Some(Json::Bool(false)),
{
}

/// What is done with a request: one that is no JSON is refused with what is wrong
/// with it, one that is no object is refused as that, and any other is forwarded,
/// translated, with the name of the model that the client named and with its word
/// on the stream.
pub proof fn a_request_is_forwarded_or_refused(
    parsed: Result<Json, Seq<char>>,
    backend_model: Seq<char>,
    enable_thinking: bool,
)
    ensures
        match planned(parsed, backend_model, enable_thinking) {
            PlanModel::Forward(f) => {
                &&& parsed is Ok
                &&& parsed->Ok_0 is Object
                &&& f.chat_body == Json::Object(
                    chat_request(parsed->Ok_0->Object_0, backend_model, enable_thinking),
                )
                &&& f.model == str_or(parsed->Ok_0, "model"@, "unknown"@)
                &&& f.want_stream <==> at(parsed->Ok_0, "stream"@) != Some(Json::Bool(false))
            },
            PlanModel::Refuse(r) => match parsed {
                Err(e) => refuses(r, 400, "invalid JSON body: "@ + e),
                Ok(v) => !(v is Object) && refuses(
                    r,
                    400,
                    "translation error: "@ + "responses request body must be a JSON object"@,
                ),
            },
        },
{
    match parsed {
        Err(e) => {
            an_error_says_what_it_was_given(400, "invalid JSON body: "@ + e);
        },
        Ok(_) => {
            an_error_says_what_it_was_given(
                400,
                "translation error: "@ + "responses request body must be a JSON object"@,
            );
        },
    }
}

/// A status is a success where it is two hundred and something.
pub proof fn success_is_two_hundred_and_something(status: u16)
    ensures
        is_success(status) <==> status / 100 == 2,
{
}

/// What is said of an upstream that refused: its status and all that it answered
/// with.
pub proof fn a_refusal_is_told_in_full(status: Seq<char>, body: Seq<char>)
    ensures
        ({
            let said = status_message(status, body);
            let n = status.len() as int;
            &&& said.len() == 11 + n + body.len()
            &&& said.take(9) == "upstream "@
            &&& said.subrange(9, 9 + n) == status
            &&& said.subrange(9 + n, 11 + n) == ": "@
            &&& said.skip(11 + n) == body
        }),
{
    reveal_strlit("upstream ");
    reveal_strlit(": ");
    let said = status_message(status, body);
    let n = status.len() as int;
    assert("upstream "@.len() == 9 && ": "@.len() == 2);
    assert(said.take(9) =~= "upstream "@);
    assert(said.subrange(9, 9 + n) =~= status);
    assert(said.subrange(9 + n, 11 + n) =~= ": "@);
    assert(said.skip(11 + n) =~= body);
}

/// A chat request that is passed on asks for the backend model, and is otherwise
/// what the client sent; one that is no object is left as it is.
pub proof fn only_the_model_is_replaced(
    parsed: Result<Json, Seq<char>>,
    backend_model: Seq<char>,
)
    ensures
        match rerouted(parsed, backend_model) {
            Some(text) => {
                &&& parsed is Ok
                &&& parsed->Ok_0 is Object
                &&& exists|j: Json|
                    {
                        &&& text == #[trigger] json_text(j)
                        &&& j is Object
                        &&& at(j, "model"@) == Some(Json::Str(backend_model))
                        &&& forall|k: Seq<char>|
                            k != "model"@ ==> #[trigger] at(j, k) == at(parsed->Ok_0, k)
                    }
            },
            None => parsed is Err || !(parsed->Ok_0 is Object),
        },
{
    match parsed {
        Ok(Json::Object(o)) => {
            let j = Json::Object(o.insert("model"@, Json::Str(backend_model)));
            assert(rerouted(parsed, backend_model) == Some(json_text(j)));
            assert forall|k: Seq<char>| k != "model"@ implies #[trigger] at(j, k) == at(
                parsed->Ok_0,
                k,
            ) by {}
        },
        _ => {},
    }
}

/// The headers that are passed on are all but those of one connection, as they
/// are and in their order.
pub proof fn all_other_headers_are_passed_on(headers: Seq<(Seq<char>, Seq<u8>)>)
    ensures
        passed_on(headers) == headers.filter(
            |h: (Seq<char>, Seq<u8>)|
                h.0 != "content-length"@ && h.0 != "transfer-encoding"@ && h.0 != "connection"@,
        ),
    decreases headers.len(),
{
    reveal(Seq::filter);
    if headers.len() > 0 {
        all_other_headers_are_passed_on(headers.drop_last());
    }
}

/// The models of the upstream are those in its list that have an id, in their
/// order.
pub proof fn the_models_are_those_with_an_id(body: Json)
    ensures
        ids_in(body) == match array_at(body, "data"@) {
            Some(models) => models.filter_map(|m: Json| str_at(m, "id"@)),
            None => Seq::empty(),
        },
{
    match array_at(body, "data"@) {
        Some(models) => {
            lemma_ids_among(models);
        },
        None => {},
    }
}

proof fn lemma_ids_among(models: Seq<Json>)
    ensures
        ids_among(models) == models.filter_map(|m: Json| str_at(m, "id"@)),
    decreases models.len(),
{
    let f = |m: Json| str_at(m, "id"@);
    if models.len() == 0 {
        assert(ids_among(models) =~= models.filter_map(f));
    } else {
        lemma_ids_among(models.drop_last());
        assert(f(models.last()) == str_at(models.last(), "id"@));
        assert(ids_among(models) =~= models.filter_map(f));
    }
}

/// Whether a value is the event that announces a response of this model.
pub open spec fn announces(v: Json, model: Seq<char>) -> bool {
    &&& str_at(v, "type"@) == Some("response.created"@)
    &&& at(v, "sequence_number"@) == Some(Json::Unsigned(0))
    &&& at(v, "response"@) is Some
    &&& str_at(at(v, "response"@)->0, "model"@) == Some(model)
    &&& str_at(at(v, "response"@)->0, "status"@) == Some("in_progress"@)
}

/// Whether a value is the event that says why a response has failed.
pub open spec fn reports(v: Json, message: Seq<char>) -> bool {
    let response = at(v, "response"@)->0;
    &&& str_at(v, "type"@) == Some("response.failed"@)
    &&& at(v, "sequence_number"@) == Some(Json::Unsigned(1))
    &&& at(v, "response"@) is Some
    &&& str_at(response, "status"@) == Some("failed"@)
    &&& at(response, "error"@) is Some
    &&& str_at(at(response, "error"@)->0, "code"@) == Some("upstream_error"@)
    &&& str_at(at(response, "error"@)->0, "message"@) == Some(message)
}

/// A failure of the upstream is told as a whole stream: its payloads, read as
/// JSON, announce the response under the name that the client used, then say that
/// this response has failed, in the words that were given; then the stream ends.
pub proof fn a_failure_is_on_the_wire(
    model: Seq<char>,
    message: Seq<char>,
    count: u64,
    now: u64,
    secs: u64,
)
    requires
        one_line_each(failed_steps(model, message, count, now, secs).events),
    ensures
        ({
            let r = failed_reply(model, message, count, now, secs);
            let read = line_events(lines(r.body).complete);
            &&& r.status == 200
            &&& lines(r.body).rest.len() == 0
            &&& read.len() == 3
            &&& read[2] is Done
            &&& exists|a: Json, b: Json|
                {
                    &&& #[trigger] announces(a, model)
                    &&& #[trigger] reports(b, message)
                    &&& str_at(at(a, "response"@)->0, "id"@) == str_at(
                        at(b, "response"@)->0,
                        "id"@,
                    )
                    &&& read[0] is Data
                    &&& says(read[0]->Data_0, a, 3)
                    &&& read[1] is Data
                    &&& says(read[1]->Data_0, b, 3)
                }
        }),
{
    let events = failed_steps(model, message, count, now, secs).events;
    let m = initial(model, count, now, secs);
    let created = on_created(m);
    a_whole_answer_is_read_back(events);
    let r = failed_reply(model, message, count, now, secs);
    let read = line_events(lines(r.body).complete);
    assert(events.len() == 2);
    assert(read[0] == payloads(events)[0]);
    assert(read[1] == payloads(events)[1]);
    lemma_id("resp"@, now ^ count);
    a_failure_says_why(created.state, message);
    an_event_is_written_as_its_json(events[0]);
    an_event_is_written_as_its_json(events[1]);
    lemma_event_names_differ();
    lemma_response_names_differ();
    let a = event_json(events[0]);
    let b = event_json(events[1]);
    assert(announces(a, model));
    assert(reports(b, message));
}

} // verus!
