//! What the proxy answers.

use codex_nim_proxy::ids::IdSource;
use codex_nim_proxy::server::answer::non_streaming_response;
use codex_nim_proxy::server::answer::answer_response;
use codex_nim_proxy::server::answer::read_answer;
use codex_nim_proxy::server::answer::unreadable_response;
use codex_nim_proxy::server::answer::Answer;
use codex_nim_proxy::server::forward::forwarded_headers;
use codex_nim_proxy::server::forward::passthrough_body;
use codex_nim_proxy::server::forward::passthrough_failure;
use codex_nim_proxy::server::forward::unreadable_body;
use codex_nim_proxy::server::forward::RawHeader;
use codex_nim_proxy::server::models::handle_models;
use codex_nim_proxy::server::plan::connect_failure;
use codex_nim_proxy::server::plan::next_step;
use codex_nim_proxy::server::plan::plan_responses;
use codex_nim_proxy::server::plan::status_failure;
use codex_nim_proxy::server::plan::Forward;
use codex_nim_proxy::server::plan::NextStep;
use codex_nim_proxy::server::plan::Plan;
use codex_nim_proxy::server::reply::error_response;
use codex_nim_proxy::server::reply::failed_sse_response_at;
use codex_nim_proxy::server::reply::fallback_body;
use codex_nim_proxy::server::reply::handle_health;
use codex_nim_proxy::server::reply::Reply;
use codex_nim_proxy::translate::StreamConverter;
use serde_json::Value;

fn body(r: &Reply) -> Value {
    serde_json::from_str(&r.body).unwrap()
}

fn header(name: &str, value: &str) -> (String, String) {
    (name.to_string(), value.to_string())
}

fn refused(bytes: &[u8]) -> Reply {
    match plan_responses(bytes, "b", false) {
        Plan::Refuse(r) => r,
        Plan::Forward(_) => panic!("not refused"),
    }
}

fn forwarded(bytes: &[u8]) -> Forward {
    match plan_responses(bytes, "b", false) {
        Plan::Forward(f) => f,
        Plan::Refuse(r) => panic!("refused: {}", r.body),
    }
}

#[test]
fn an_error_is_json() {
    let r = error_response(418, "no \"tea\"");
    assert_eq!(r.status, 418);
    assert_eq!(r.headers, [header("content-type", "application/json")]);
    assert_eq!(r.body, r#"{"error":{"message":"no \"tea\""}}"#);
}

#[test]
fn a_failure_is_a_whole_stream() {
    let r = failed_sse_response_at("m", "why", &mut IdSource::new(), 0, 5);
    assert_eq!(r.status, 200);
    assert_eq!(
        r.headers,
        [
            header("content-type", "text/event-stream"),
            header("cache-control", "no-cache"),
            header("connection", "keep-alive"),
            header("X-Accel-Buffering", "no"),
        ]
    );
    let expected = [
        r#"data: {"type":"response.created","sequence_number":0,"response":{"id":"resp_ahwbmhgnylgze1432xkbyl","object":"response","created_at":5,"status":"in_progress","model":"m","output":[]}}"#,
        r#"data: {"type":"response.failed","sequence_number":1,"response":{"id":"resp_ahwbmhgnylgze1432xkbyl","object":"response","created_at":5,"status":"failed","error":{"code":"upstream_error","message":"why"},"output":[]}}"#,
        "data: [DONE]",
        "",
    ]
    .join("\n\n");
    assert_eq!(r.body, expected);
}

#[test]
fn failures_of_the_upstream_are_named() {
    let mut ids = IdSource::new();
    let r = connect_failure("m", "refused", &mut ids);
    assert!(r.body.contains("\"message\":\"upstream connect error: refused\""));
    let r = status_failure("m", "404 Not Found", "gone", &mut ids);
    assert!(r.body.contains("\"message\":\"upstream 404 Not Found: gone\""));
    assert_eq!(ids.count, 2);
    let r = passthrough_failure("x");
    assert_eq!((r.status, r.body.as_str()), (502, r#"{"error":{"message":"upstream error: x"}}"#));
    let r = unreadable_body("x");
    assert_eq!(
        (r.status, r.body.as_str()),
        (502, r#"{"error":{"message":"failed reading upstream body: x"}}"#)
    );
    let r = unreadable_response("x");
    assert_eq!(
        (r.status, r.body.as_str()),
        (502, r#"{"error":{"message":"error reading upstream: x"}}"#)
    );
    let r = fallback_body();
    assert_eq!((r.status, r.headers.len(), r.body.as_str()), (200, 0, "internal proxy error"));
    assert_eq!(handle_health(), "ok\n");
}

#[test]
fn a_body_that_is_no_json_is_refused() {
    let r = refused(b"{");
    assert_eq!(r.status, 400);
    let message = body(&r)["error"]["message"].as_str().unwrap().to_string();
    assert_eq!(
        message,
        "invalid JSON body: EOF while parsing an object at line 1 column 1"
    );
}

#[test]
fn a_body_that_is_no_object_is_refused() {
    let r = refused(b"[1]");
    assert_eq!(r.status, 400);
    assert_eq!(
        r.body,
        r#"{"error":{"message":"translation error: responses request body must be a JSON object"}}"#
    );
}

#[test]
fn a_request_is_forwarded() {
    let f = forwarded(br#"{"model":"gpt","input":"hi"}"#);
    assert_eq!(f.model, "gpt");
    assert!(f.want_stream);
    assert_eq!(
        f.chat_body.to_string(),
        r#"{"messages":[{"content":"hi","role":"user"}],"model":"b","stream":true}"#
    );
    assert!(!forwarded(br#"{"stream":false}"#).want_stream);
    assert!(forwarded(br#"{"stream":true}"#).want_stream);
    assert!(forwarded(br#"{"stream":0}"#).want_stream);
}

#[test]
fn the_status_decides_what_is_next() {
    assert!(next_step(200, true) == NextStep::Stream);
    assert!(next_step(299, false) == NextStep::Collect);
    assert!(next_step(300, true) == NextStep::ReportFailure);
    assert!(next_step(199, false) == NextStep::ReportFailure);
    assert!(next_step(500, false) == NextStep::ReportFailure);
}

#[test]
fn headers_of_one_connection_are_not_passed_on() {
    let raw = |name: &str, value: &[u8]| RawHeader {
        name: name.to_string(),
        value: value.to_vec(),
    };
    let kept = forwarded_headers(&vec![
        raw("content-length", b"3"),
        raw("x", b"\xff1"),
        raw("transfer-encoding", b"chunked"),
        raw("connection", b"close"),
        raw("x", b"2"),
        raw("Connection", b"3"),
    ]);
    let names: Vec<(&str, &[u8])> = kept
        .iter()
        .map(|h| (h.name.as_str(), h.value.as_slice()))
        .collect();
    assert_eq!(
        names,
        [("x", &b"\xff1"[..]), ("x", &b"2"[..]), ("Connection", &b"3"[..])]
    );
}

#[test]
fn the_models_of_the_upstream_are_listed() {
    let r = handle_models(Some(br#"{"data":[{"id":"a"},{"id":1},{},{"id":"b"},{"id":"a"}]}"#));
    assert_eq!(r.status, 200);
    assert_eq!(r.headers, [header("content-type", "application/json")]);
    let v = body(&r);
    let data = v["data"].as_array().unwrap();
    assert_eq!(data.len(), 14);
    assert_eq!(data[12]["id"], "a");
    assert_eq!(data[13]["id"], "b");
}

#[test]
fn without_models_of_the_upstream_the_known_are_listed() {
    for upstream in [None, Some(&b"nonsense"[..]), Some(&b"[]"[..]), Some(&b"{\"data\":1}"[..])] {
        let v = body(&handle_models(upstream));
        assert_eq!(v["data"].as_array().unwrap().len(), 12);
    }
}

const ANSWER: &str = "data: {\"choices\":[{\"delta\":{\"content\":\"Hel\"}}]}\r\n\n\
    : comment\n\
    data: nonsense\n\
    data: {\"choices\":[{\"delta\":{\"content\":\"lo\",\"tool_calls\":[\
        {\"index\":2,\"id\":\"c2\",\"function\":{\"name\":\"two\",\"arguments\":\"{\"}},\
        {\"id\":\"c0\",\"function\":{\"name\":\"\",\"arguments\":\"[\"}}]}},{\"delta\":{\"content\":\"no\"}}]}\n\
    data: {\"choices\":[{\"delta\":{\"tool_calls\":[\
        {\"index\":2,\"id\":\"\",\"function\":{\"name\":\"deux\",\"arguments\":\"}\"}},\
        {\"index\":4294967296,\"function\":{\"arguments\":\"]\"}}]}}],\"usage\":{\"total_tokens\":3}}\n\
    data: {\"choices\":[]}\n\
    data: [DONE]\n\
    data: {\"choices\":[{\"delta\":{\"content\":\"never\"}}]}";

#[test]
fn an_answer_is_put_together() {
    let answer = read_answer(ANSWER);
    assert_eq!(answer.content, "Hello");
    assert_eq!(answer.calls.len(), 2);
    let r = answer_response(&answer, "m", &vec![0, 1, 2, 3], 9);
    assert_eq!(
        r.body,
        [
            r#"{"created_at":9,"id":"resp_ahwbmhgnylgze143","model":"m","object":"response","output":["#,
            r#"{"content":[{"text":"Hello","type":"output_text"}],"id":"msg_bexcr654bilcrad0","role":"assistant","status":"completed","type":"message"},"#,
            r#"{"arguments":"[]","call_id":"c0","id":"fc_cbydwfu54z6p43md","name":"","status":"completed","type":"function_call"},"#,
            r#"{"arguments":"{}","call_id":"c2","id":"fc_dsje14jmhwb2hwvq","name":"deux","status":"completed","type":"function_call"}"#,
            r#"],"status":"completed","usage":{"total_tokens":3}}"#,
        ]
        .concat()
    );
}

#[test]
fn an_answer_without_text_has_no_message() {
    let answer = read_answer("data: {\"usage\":null}");
    let r = answer_response(&answer, "m", &vec![1], 0);
    assert_eq!(
        r.body,
        r#"{"created_at":0,"id":"resp_bexcr654bilcrad0","model":"m","object":"response","output":[],"status":"completed","usage":null}"#
    );
    let r = answer_response(&read_answer(""), "m", &vec![1], 0);
    assert_eq!(body(&r)["usage"], Value::Null);
}

#[test]
fn a_whole_answer_is_answered() {
    let r = non_streaming_response(ANSWER.as_bytes(), "gpt");
    assert_eq!(r.status, 200);
    assert_eq!(r.headers, [header("content-type", "application/json")]);
    let v = body(&r);
    assert_eq!(v["model"], "gpt");
    assert_eq!(v["output"].as_array().unwrap().len(), 3);
    assert_eq!(v["output"][0]["content"][0]["text"], "Hello");
    let id = v["id"].as_str().unwrap();
    assert!(id.starts_with("resp_"));
    assert_eq!(id.len(), 21);
}

#[test]
fn an_answer_that_is_too_large_is_refused() {
    let mut bytes = vec![b'x'; 16 * 1024 * 1024];
    assert_eq!(non_streaming_response(&bytes, "m").status, 200);
    bytes.push(b'x');
    let r = non_streaming_response(&bytes, "m");
    assert_eq!(r.status, 413);
    assert_eq!(
        r.body,
        r#"{"error":{"message":"non-streaming response exceeded 16 MiB"}}"#
    );
}

#[test]
fn the_bridge_cannot_be_seen() {
    let f = forwarded(br#"{"model":"gpt-5.6-sol","input":"hi"}"#);
    assert_eq!(f.chat_body["model"], "b");
    let mut c = StreamConverter::new(f.model, &mut IdSource::new());
    let mut items = c.start();
    items.extend(c.finish());
    let out = items.concat();
    assert_eq!(out.matches("\"model\":\"gpt-5.6-sol\"").count(), 2);
    assert_eq!(out.matches("\"model\"").count(), 2);
}

#[test]
fn an_answer_comes_in_parts() {
    let chunks = [
        r#"{"choices":[{"delta":{"content":"a","tool_calls":[{"index":1,"function":{"arguments":"x"}}]}}]}"#,
        r#"{"choices":[{"delta":{"content":"b","tool_calls":[{"index":1,"id":"i","function":{"name":"n","arguments":"y"}}]}}]}"#,
    ];
    let mut answer = Answer::new();
    for chunk in chunks {
        answer.take_chunk(&serde_json::from_str(chunk).unwrap());
    }
    let text: String = chunks.iter().map(|c| format!("data: {c}\n\n")).collect();
    let read = read_answer(&text);
    assert_eq!(answer.content, "ab");
    assert_eq!(read.content, "ab");
    for a in [&answer, &read] {
        assert_eq!(a.calls.len(), 1);
        assert_eq!(a.calls[&1].call_id, "i");
        assert_eq!(a.calls[&1].name, "n");
        assert_eq!(a.calls[&1].arguments, "xy");
        assert!(a.usage.is_none());
    }
}

#[test]
fn a_chat_request_goes_to_the_backend_model() {
    let sent = passthrough_body(br#"{"stream":true,"model":"gpt","messages":[]}"#, "b");
    assert_eq!(sent.unwrap(), r#"{"messages":[],"model":"b","stream":true}"#);
    assert_eq!(passthrough_body(b"{}", "b").unwrap(), r#"{"model":"b"}"#);
    assert!(passthrough_body(b"[1]", "b").is_none());
    assert!(passthrough_body(b"nonsense", "b").is_none());
}

#[test]
fn a_whole_answer_of_other_characters_is_decoded() {
    let text = "data: {\"choices\":[{\"delta\":{\"content\":\"h\u{e9}\u{1f600}\"}}]}\n";
    let v = body(&non_streaming_response(text.as_bytes(), "m"));
    assert_eq!(v["output"][0]["content"][0]["text"], "h\u{e9}\u{1f600}");
}
