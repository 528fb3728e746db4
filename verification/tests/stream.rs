//! Chunks of an answer as events.

use codex_nim_proxy::ids::IdSource;
use codex_nim_proxy::translate::ChatChoice;
use codex_nim_proxy::translate::ChatChunk;
use codex_nim_proxy::translate::ChatDelta;
use codex_nim_proxy::translate::ChatToResponsesStream;
use codex_nim_proxy::translate::ChatToolCall;
use codex_nim_proxy::translate::ChatToolCallFunction;
use codex_nim_proxy::translate::ChatUsage;

#[test]
fn stream_emits_created_first() {
    let mut ids = IdSource::new();
    let mut state = ChatToResponsesStream::new("test-model".to_string(), &mut ids);
    let created = state.ensure_created();
    assert!(created.contains("response.created"));
    assert!(created.contains("test-model"));
    let again = state.ensure_created();
    assert!(again.is_empty());
}

#[test]
fn stream_translates_text_delta() {
    let mut ids = IdSource::new();
    let mut state = ChatToResponsesStream::new("m".to_string(), &mut ids);
    let chunk = ChatChunk {
        id: Some("c1".to_string()),
        model: Some("m".to_string()),
        choices: vec![ChatChoice {
            index: 0,
            delta: ChatDelta {
                role: Some("assistant".to_string()),
                content: Some("Hello".to_string()),
                tool_calls: None,
                reasoning_content: None,
            },
            finish_reason: None,
        }],
        usage: None,
    };
    let out = state.handle_chunk(&chunk, &mut ids);
    assert!(out.contains("response.created"));
    assert!(out.contains("response.output_item.added"));
    assert!(out.contains("response.output_text.delta"));
    assert!(out.contains("\"delta\":\"Hello\""));
}

#[test]
fn stream_translates_tool_call() {
    let mut ids = IdSource::new();
    let mut state = ChatToResponsesStream::new("m".to_string(), &mut ids);

    let chunk1 = ChatChunk {
        id: Some("c1".to_string()),
        model: Some("m".to_string()),
        choices: vec![ChatChoice {
            index: 0,
            delta: ChatDelta {
                role: Some("assistant".to_string()),
                content: None,
                tool_calls: Some(vec![ChatToolCall {
                    index: 0,
                    id: Some("call_42".to_string()),
                    function: Some(ChatToolCallFunction {
                        name: Some("shell".to_string()),
                        arguments: Some("{\"cmd\":".to_string()),
                    }),
                }]),
                reasoning_content: None,
            },
            finish_reason: None,
        }],
        usage: None,
    };
    let out1 = state.handle_chunk(&chunk1, &mut ids);
    assert!(out1.contains("response.output_item.added"));
    assert!(out1.contains("\"name\":\"shell\""));
    assert!(out1.contains("response.function_call_arguments.delta"));
    assert!(out1.contains("\"delta\":\"{\\\"cmd\\\":\""));

    let chunk2 = ChatChunk {
        id: Some("c2".to_string()),
        model: Some("m".to_string()),
        choices: vec![ChatChoice {
            index: 0,
            delta: ChatDelta {
                role: None,
                content: None,
                tool_calls: Some(vec![ChatToolCall {
                    index: 0,
                    id: None,
                    function: Some(ChatToolCallFunction {
                        name: None,
                        arguments: Some("\"ls\"}".to_string()),
                    }),
                }]),
                reasoning_content: None,
            },
            finish_reason: Some("tool_calls".to_string()),
        }],
        usage: Some(ChatUsage {
            prompt_tokens: 10,
            completion_tokens: 5,
            total_tokens: 15,
        }),
    };
    let out2 = state.handle_chunk(&chunk2, &mut ids);
    assert!(out2.contains("response.function_call_arguments.delta"));
    assert!(out2.contains("response.output_item.done"));
    assert!(out2.contains("\"arguments\":\"{\\\"cmd\\\":\\\"ls\\\"}\""));
    assert!(out2.contains("response.completed"));
    assert!(out2.contains("\"input_tokens\":10"));
}

#[test]
fn stream_emits_failed_on_demand() {
    let mut ids = IdSource::new();
    let mut state = ChatToResponsesStream::new("m".to_string(), &mut ids);
    let out = state.emit_failed("upstream 500");
    assert!(out.contains("response.failed"));
    assert!(out.contains("upstream 500"));
}

fn chunk(delta: ChatDelta, finish: bool) -> ChatChunk {
    ChatChunk {
        id: None,
        model: None,
        choices: vec![ChatChoice {
            index: 0,
            delta,
            finish_reason: if finish { Some("stop".to_string()) } else { None },
        }],
        usage: None,
    }
}

fn text(t: &str) -> ChatDelta {
    ChatDelta {
        content: Some(t.to_string()),
        ..ChatDelta::default()
    }
}

fn piece(index: u32, id: Option<&str>, name: Option<&str>, arguments: Option<&str>) -> ChatToolCall {
    ChatToolCall {
        index,
        id: id.map(str::to_string),
        function: Some(ChatToolCallFunction {
            name: name.map(str::to_string),
            arguments: arguments.map(str::to_string),
        }),
    }
}

fn calls(pieces: Vec<ChatToolCall>) -> ChatDelta {
    ChatDelta {
        tool_calls: Some(pieces),
        ..ChatDelta::default()
    }
}

/// The payloads of a stream.
fn payloads(out: &str) -> Vec<serde_json::Value> {
    out.split("\n\n")
        .filter(|s| !s.is_empty())
        .map(|s| serde_json::from_str(s.strip_prefix("data: ").unwrap()).unwrap())
        .collect()
}

#[test]
fn a_text_answer_is_written_exactly() {
    let mut ids = IdSource { count: 0 };
    let mut state = ChatToResponsesStream::new_at("m\"x".to_string(), &mut ids, 0, 7);
    let out = state.handle_chunk_at(&chunk(text("a\nb"), false), &mut ids, 0);
    let expected = [
        r#"data: {"type":"response.created","sequence_number":0,"response":{"id":"resp_ahwbmhgnylgze1432xkbyl","object":"response","created_at":7,"status":"in_progress","model":"m\"x","output":[]}}"#,
        r#"data: {"type":"response.output_item.added","sequence_number":1,"output_index":0,"item":{"content":[],"id":"msg_bexcr654bilcrad0ru9kf2","role":"assistant","status":"in_progress","type":"message"}}"#,
        r#"data: {"type":"response.output_text.delta","sequence_number":2,"item_id":"msg_bexcr654bilcrad0ru9kf2","output_index":0,"content_index":0,"delta":"a\nb"}"#,
        "",
    ]
    .join("\n\n");
    assert_eq!(out, expected);

    let mut last = chunk(text("c"), true);
    last.usage = Some(ChatUsage {
        prompt_tokens: 1,
        completion_tokens: 2,
        total_tokens: 3,
    });
    let out = state.handle_chunk_at(&last, &mut ids, 9);
    let expected = [
        r#"data: {"type":"response.output_text.delta","sequence_number":3,"item_id":"msg_bexcr654bilcrad0ru9kf2","output_index":0,"content_index":0,"delta":"c"}"#,
        r#"data: {"type":"response.output_item.done","sequence_number":4,"output_index":0,"item":{"content":[{"text":"a\nbc","type":"output_text"}],"id":"msg_bexcr654bilcrad0ru9kf2","role":"assistant","status":"completed","type":"message"}}"#,
        r#"data: {"type":"response.completed","sequence_number":5,"response":{"id":"resp_ahwbmhgnylgze1432xkbyl","object":"response","created_at":7,"status":"completed","model":"m\"x","output":[],"usage":{"input_tokens":1,"output_tokens":2,"total_tokens":3}}}"#,
        "",
    ]
    .join("\n\n");
    assert_eq!(out, expected);
    assert_eq!(state.end(), "");
}

#[test]
fn a_failure_is_written_exactly() {
    let mut ids = IdSource { count: 0 };
    let mut state = ChatToResponsesStream::new_at("m".to_string(), &mut ids, 1, 2);
    assert_eq!(
        state.emit_failed("no \"luck\""),
        concat_texts(&[
            r#"data: {"type":"response.failed","sequence_number":0,"response":{"#,
            r#""id":"resp_bexcr654bilcrad0ru9kf2","object":"response","created_at":2,"#,
            r#""status":"failed","error":{"code":"upstream_error","message":"no \"luck\""},"#,
            r#""output":[]}}"#,
            "\n\n",
        ])
    );
}

fn concat_texts(parts: &[&str]) -> String {
    parts.concat()
}

#[test]
fn reasoning_comes_before_text() {
    let mut ids = IdSource { count: 5 };
    let mut state = ChatToResponsesStream::new_at("m".to_string(), &mut ids, 1000, 2);
    let delta = ChatDelta {
        content: Some("t".to_string()),
        reasoning_content: Some("r1".to_string()),
        ..ChatDelta::default()
    };
    let first = payloads(&state.handle_chunk_at(&chunk(delta, false), &mut ids, 1000));
    let kinds: Vec<&str> = first.iter().map(|p| p["type"].as_str().unwrap()).collect();
    assert_eq!(
        kinds,
        [
            "response.created",
            "response.output_item.added",
            "response.reasoning_text.delta",
            "response.output_item.added",
            "response.output_text.delta"
        ]
    );
    assert_eq!(first[0]["response"]["id"], "resp_7y14neh8napobal0bq1wzu");
    assert_eq!(
        first[1]["item"].to_string(),
        r#"{"content":[],"id":"rs_8fm5s36p07a1o3ed0n6pwv","status":"in_progress","summary":[],"type":"reasoning"}"#
    );
    assert_eq!(first[2]["item_id"], "rs_8fm5s36p07a1o3ed0n6pwv");
    assert_eq!(first[3]["item"]["id"], "msg_9cn6xcvqt4felwnq9kvydc");

    let delta = ChatDelta {
        reasoning_content: Some("r2".to_string()),
        ..ChatDelta::default()
    };
    let last = payloads(&state.handle_chunk_at(&chunk(delta, true), &mut ids, 0));
    assert_eq!(last[0]["delta"], "r2");
    assert_eq!(
        last[1]["item"].to_string(),
        r#"{"content":[{"text":"r1r2","type":"reasoning_text"}],"id":"rs_8fm5s36p07a1o3ed0n6pwv","status":"completed","summary":[],"type":"reasoning"}"#
    );
    assert_eq!(last[2]["item"]["type"], "message");
    assert_eq!(last[3]["type"], "response.completed");
    assert!(last[3]["response"]["usage"].is_null());
}

#[test]
fn tool_calls_are_completed_in_the_order_of_their_indices() {
    let mut ids = IdSource::new();
    let mut state = ChatToResponsesStream::new("m".to_string(), &mut ids);
    let first = payloads(&state.handle_chunk(&chunk(
        calls(vec![
            piece(4, Some("c4"), Some("four"), Some("{\"a\"")),
            piece(2, None, None, Some("[")),
            piece(7, Some("c7"), None, Some("lost")),
            piece(4, Some(""), Some("ignored"), Some(":1}")),
        ]),
        false,
    ), &mut ids));
    assert_eq!(first[1]["output_index"], 1);
    assert_eq!(first[1]["item"]["call_id"], "c4");
    assert_eq!(first[1]["item"]["arguments"], "");
    // The arguments of a call without a name are shown as they come.
    assert_eq!(first[3]["type"], "response.function_call_arguments.delta");
    assert_eq!(first[3]["output_index"], 2);
    let last = payloads(&state.handle_chunk(&chunk(
        calls(vec![piece(2, Some("c2"), Some("two"), Some("]"))]),
        true,
    ), &mut ids));
    let done: Vec<_> = last
        .iter()
        .filter(|p| p["type"] == "response.output_item.done")
        .collect();
    assert_eq!(done.len(), 2);
    assert_eq!(done[0]["item"]["call_id"], "c2");
    assert_eq!(done[0]["item"]["name"], "two");
    assert_eq!(done[0]["item"]["arguments"], "[]");
    assert_eq!(done[0]["output_index"], 2);
    assert_eq!(done[1]["item"]["call_id"], "c4");
    assert_eq!(done[1]["item"]["name"], "four");
    assert_eq!(done[1]["item"]["arguments"], "{\"a\":1}");
    assert_eq!(done[1]["output_index"], 1);
    assert_eq!(last[last.len() - 1]["type"], "response.completed");
}

#[test]
fn a_call_without_an_id_gets_one() {
    let mut ids = IdSource { count: 0 };
    let mut state = ChatToResponsesStream::new_at("m".to_string(), &mut ids, 0, 0);
    let out = payloads(&state.handle_chunk_at(
        &chunk(calls(vec![piece(0, None, Some("f"), None)]), false),
        &mut ids,
        0,
    ));
    assert_eq!(out[1]["item"]["id"], "fc_bexcr654bilcrad0ru9kf2");
    assert_eq!(out[1]["item"]["call_id"], "call_cbydwfu54z6p43md0rydc3");
}

#[test]
fn numbers_are_in_a_row() {
    let mut ids = IdSource::new();
    let mut state = ChatToResponsesStream::new("m".to_string(), &mut ids);
    let mut out = state.ensure_created();
    for i in 0..20u32 {
        out.push_str(&state.handle_chunk(&chunk(text("x"), i % 5 == 4), &mut ids));
        out.push_str(&state.handle_chunk(&chunk(
            calls(vec![piece(i % 3, None, Some("f"), Some("1"))]),
            i % 7 == 6,
        ), &mut ids));
    }
    out.push_str(&state.end());
    let all = payloads(&out);
    for (i, p) in all.iter().enumerate() {
        assert_eq!(p["sequence_number"], i);
    }
    let created = all.iter().filter(|p| p["type"] == "response.created").count();
    let completed = all.iter().filter(|p| p["type"] == "response.completed").count();
    assert_eq!((created, completed), (1, 1));
}

#[test]
fn a_chunk_without_choices_brings_its_usage() {
    let mut ids = IdSource::new();
    let mut state = ChatToResponsesStream::new("m".to_string(), &mut ids);
    let usage = ChatChunk {
        id: None,
        model: None,
        choices: vec![],
        usage: Some(ChatUsage {
            prompt_tokens: 4,
            completion_tokens: 5,
            total_tokens: 9,
        }),
    };
    let out = payloads(&state.handle_chunk(&usage, &mut ids));
    assert_eq!(out.len(), 1);
    let end = payloads(&state.end());
    assert_eq!(end[0]["response"]["usage"]["total_tokens"], 9);
}

#[test]
fn empty_pieces_show_nothing() {
    let mut ids = IdSource::new();
    let mut state = ChatToResponsesStream::new("m".to_string(), &mut ids);
    let delta = ChatDelta {
        content: Some(String::new()),
        reasoning_content: Some(String::new()),
        tool_calls: Some(vec![]),
        role: None,
    };
    let out = payloads(&state.handle_chunk(&chunk(delta, false), &mut ids));
    assert_eq!(out.len(), 1);
}

#[test]
fn what_is_open_at_the_end_is_given_up() {
    let mut ids = IdSource::new();
    let mut state = ChatToResponsesStream::new("m".to_string(), &mut ids);
    let _ = state.handle_chunk(&chunk(text("x"), false), &mut ids);
    let end = payloads(&state.end());
    assert_eq!(end.len(), 1);
    assert_eq!(end[0]["type"], "response.completed");
}

#[test]
fn what_is_brought_is_shown_and_completed() {
    let mut ids = IdSource::new();
    let mut state = ChatToResponsesStream::new("m".to_string(), &mut ids);
    let mut out = String::new();
    for (content, reasoning, arguments) in
        [("He", "I ", "{"), ("", "think", "\"a\":"), ("llo", "", "1}")]
    {
        let delta = ChatDelta {
            role: None,
            content: Some(content.to_string()),
            tool_calls: Some(vec![piece(0, Some("c"), Some("f"), Some(arguments))]),
            reasoning_content: Some(reasoning.to_string()),
        };
        out.push_str(&state.handle_chunk(&chunk(delta, false), &mut ids));
    }
    out.push_str(&state.handle_chunk(&chunk(ChatDelta::default(), true), &mut ids));
    let all = payloads(&out);
    let shown = |kind: &str| -> String {
        all.iter()
            .filter(|p| p["type"] == kind)
            .map(|p| p["delta"].as_str().unwrap())
            .collect()
    };
    assert_eq!(shown("response.output_text.delta"), "Hello");
    assert_eq!(shown("response.reasoning_text.delta"), "I think");
    assert_eq!(shown("response.function_call_arguments.delta"), "{\"a\":1}");
    let done: Vec<_> = all
        .iter()
        .filter(|p| p["type"] == "response.output_item.done")
        .collect();
    assert_eq!(done.len(), 3);
    assert_eq!(done[0]["item"]["content"][0]["text"], "I think");
    assert_eq!(done[1]["item"]["content"][0]["text"], "Hello");
    assert_eq!(done[2]["item"]["arguments"], "{\"a\":1}");
    for d in done {
        let added = all.iter().position(|p| {
            p["type"] == "response.output_item.added"
                && p["item"]["id"] == d["item"]["id"]
                && p["item"]["type"] == d["item"]["type"]
                && p["output_index"] == d["output_index"]
        });
        let at = all.iter().position(|p| p == d);
        assert!(added.unwrap() < at.unwrap());
    }
}

#[test]
fn the_time_of_a_response_is_that_of_the_clock() {
    let secs = || {
        std::time::SystemTime::now()
            .duration_since(std::time::UNIX_EPOCH)
            .unwrap()
            .as_secs()
    };
    let before = secs();
    let created = payloads(
        &ChatToResponsesStream::new("m".to_string(), &mut IdSource::new()).ensure_created(),
    );
    let at = created[0]["response"]["created_at"].as_u64().unwrap();
    assert!(before <= at && at <= secs());
}

#[test]
fn streams_of_one_process_have_different_identifiers() {
    let mut ids = IdSource::new();
    let mut a = ChatToResponsesStream::new_at("m".to_string(), &mut ids, 0, 0);
    let mut b = ChatToResponsesStream::new_at("m".to_string(), &mut ids, 0, 0);
    assert_eq!(ids.count, 2);
    let first = payloads(&a.ensure_created());
    let second = payloads(&b.ensure_created());
    assert_eq!(first[0]["response"]["id"], "resp_ahwbmhgnylgze1432xkbyl");
    assert_eq!(second[0]["response"]["id"], "resp_bexcr654bilcrad0ru9kf2");
    let _ = b.handle_chunk_at(&chunk(text("x"), false), &mut ids, 0);
    let out = payloads(&a.handle_chunk_at(&chunk(text("x"), false), &mut ids, 0));
    assert_eq!(out[0]["item"]["id"], "msg_dsje14jmhwb2hwvqpo3mtk");
    assert_eq!(ids.count, 4);
}

#[test]
fn output_indices_follow_the_order_of_appearance() {
    let mut ids = IdSource::new();
    let mut state = ChatToResponsesStream::new("m".to_string(), &mut ids);
    let delta = ChatDelta {
        content: Some("t".to_string()),
        reasoning_content: Some("r".to_string()),
        role: None,
        tool_calls: Some(vec![
            piece(9, Some("c9"), Some("nine"), Some("a")),
            piece(3, Some("c3"), Some("three"), Some("b")),
            piece(9, None, None, Some("c")),
        ]),
    };
    let out = payloads(&state.handle_chunk(&chunk(delta, true), &mut ids));
    let places: Vec<u64> = out
        .iter()
        .filter_map(|p| p["output_index"].as_u64())
        .collect();
    // Reasoning, message, the pieces, and the completions in their order.
    assert_eq!(places, [0, 0, 0, 0, 1, 1, 2, 2, 1, 0, 0, 2, 1]);
    let done: Vec<_> = out
        .iter()
        .filter(|p| p["type"] == "response.output_item.done")
        .map(|p| p["item"]["type"].as_str().unwrap())
        .collect();
    assert_eq!(done, ["reasoning", "message", "function_call", "function_call"]);
}

#[test]
fn a_second_answer_completes_only_its_own_items() {
    let mut ids = IdSource::new();
    let mut state = ChatToResponsesStream::new("m".to_string(), &mut ids);
    let _ = state.handle_chunk(&chunk(text("a"), true), &mut ids);
    let out = payloads(&state.handle_chunk(&chunk(text("b"), true), &mut ids));
    let added: Vec<_> = out
        .iter()
        .filter(|p| p["type"] == "response.output_item.added")
        .collect();
    let done: Vec<_> = out
        .iter()
        .filter(|p| p["type"] == "response.output_item.done")
        .collect();
    assert_eq!((added.len(), done.len()), (1, 1));
    assert_eq!(added[0]["item"]["id"], done[0]["item"]["id"]);
    assert_eq!(done[0]["item"]["content"][0]["text"], "b");
}

#[test]
fn other_calls_may_come_in_between() {
    let mut ids = IdSource::new();
    let mut state = ChatToResponsesStream::new("m".to_string(), &mut ids);
    let mut out = state.emit_failed("early");
    out.push_str(&state.handle_chunk(&chunk(text("a"), false), &mut ids));
    out.push_str(&state.ensure_created());
    out.push_str(&state.emit_completed());
    out.push_str(&state.handle_chunk(&chunk(text("b"), true), &mut ids));
    let all = payloads(&out);
    for (i, p) in all.iter().enumerate() {
        assert_eq!(p["sequence_number"], i);
    }
    assert_eq!(all.iter().filter(|p| p["type"] == "response.created").count(), 1);
    assert_eq!(all.iter().filter(|p| p["type"] == "response.completed").count(), 1);
    let done = all.iter().find(|p| p["type"] == "response.output_item.done").unwrap();
    assert_eq!(done["item"]["content"][0]["text"], "ab");
}

#[test]
fn each_call_of_a_second_answer_is_completed_with_its_pieces() {
    let mut ids = IdSource { count: 0 };
    let mut state = ChatToResponsesStream::new_at("m".to_string(), &mut ids, 0, 0);
    let first = calls(vec![piece(7, Some("old"), Some("before"), Some("{}"))]);
    let _ = state.handle_chunk_at(&chunk(first, true), &mut ids, 0);
    let pieces = calls(vec![
        piece(7, None, Some("seven"), Some("a")),
        piece(2, Some("two_1"), Some("two"), Some("x")),
        piece(7, None, Some("other"), Some("b")),
    ]);
    let _ = state.handle_chunk_at(&chunk(pieces, false), &mut ids, 0);
    let pieces = calls(vec![
        piece(2, Some("two_2"), None, Some("y")),
        piece(7, None, None, Some("c")),
    ]);
    let out = payloads(&state.handle_chunk_at(&chunk(pieces, true), &mut ids, 0));
    let done: Vec<_> = out
        .iter()
        .filter(|p| p["type"] == "response.output_item.done")
        .collect();
    assert_eq!(done.len(), 2);
    assert_eq!(done[0]["item"]["name"], "two");
    assert_eq!(done[0]["item"]["call_id"], "two_2");
    assert_eq!(done[0]["item"]["arguments"], "xy");
    assert_eq!(done[0]["output_index"], 3);
    assert_eq!(done[1]["item"]["name"], "seven");
    assert_ne!(done[1]["item"]["call_id"], "old");
    assert_eq!(done[1]["item"]["arguments"], "abc");
    assert_eq!(done[1]["output_index"], 2);
}
