//! Requests of the Responses API as Chat Completions requests.

use codex_nim_proxy::translate::request::build_chat_content;
use codex_nim_proxy::translate::request::build_chat_messages;
use codex_nim_proxy::translate::request::message_content_to_string;
use codex_nim_proxy::translate::translate_request;
use serde_json::Value;

fn parsed(text: &str) -> Value {
    serde_json::from_str(text).unwrap()
}

#[test]
fn translates_basic_request() {
    let body = parsed(
        r#"{
        "model": "gpt-5.6-sol",
        "instructions": "Be helpful.",
        "input": [
            {"type": "message", "role": "user", "content": [
                {"type": "input_text", "text": "hello"}
            ]}
        ],
        "tool_choice": "auto",
        "parallel_tool_calls": false
    }"#,
    );
    let (chat, incoming) = translate_request(&body, "qwen/qwen3-next-80b-a3b-instruct", false).unwrap();
    let messages = chat.get("messages").unwrap().as_array().unwrap();
    assert_eq!(messages.len(), 2);
    assert_eq!(messages[0]["role"], "system");
    assert_eq!(messages[0]["content"], "Be helpful.");
    assert_eq!(messages[1]["role"], "user");
    assert_eq!(messages[1]["content"], "hello");
    // CRITICAL: model name is OVERRIDDEN with backend model, not what codex sent.
    assert_eq!(chat["model"], "qwen/qwen3-next-80b-a3b-instruct");
    assert_ne!(chat["model"], "gpt-5.6-sol");
    // But we return the incoming model name so response events can use it
    // (this is what makes the bridge INVISIBLE).
    assert_eq!(incoming, "gpt-5.6-sol");
    assert_eq!(chat["stream"], true);
    // tool_choice is DROPPED because no tools are present in this request
    // (NIM rejects tool_choice without tools with a 400).
    assert!(chat.get("tool_choice").is_none());
}

#[test]
fn translates_function_call_history() {
    let body = parsed(
        r#"{
        "model": "x",
        "input": [
            {"type": "message", "role": "user", "content": [
                {"type": "input_text", "text": "list files"}
            ]},
            {"type": "function_call", "name": "shell", "arguments": "{\"cmd\":\"ls\"}", "call_id": "call_1"},
            {"type": "function_call_output", "call_id": "call_1", "output": "file.txt"}
        ]
    }"#,
    );
    let (chat, _) = translate_request(&body, "qwen/qwen3", false).unwrap();
    let messages = chat.get("messages").unwrap().as_array().unwrap();
    assert_eq!(messages.len(), 3);
    assert_eq!(messages[0]["role"], "user");
    assert_eq!(messages[1]["role"], "assistant");
    assert_eq!(messages[1]["tool_calls"][0]["id"], "call_1");
    assert_eq!(messages[1]["tool_calls"][0]["function"]["name"], "shell");
    assert_eq!(
        messages[1]["tool_calls"][0]["function"]["arguments"],
        "{\"cmd\":\"ls\"}"
    );
    assert_eq!(messages[2]["role"], "tool");
    assert_eq!(messages[2]["tool_call_id"], "call_1");
    assert_eq!(messages[2]["content"], "file.txt");
}

#[test]
fn translates_flat_tool_definition() {
    let body = parsed(
        r#"{
        "model": "x",
        "input": [],
        "tools": [
            {"type": "function", "name": "shell", "parameters": {"type": "object"}, "description": "Run a shell command"}
        ]
    }"#,
    );
    let (chat, _) = translate_request(&body, "qwen/qwen3", false).unwrap();
    let tools = chat.get("tools").unwrap().as_array().unwrap();
    assert_eq!(tools[0]["type"], "function");
    assert_eq!(tools[0]["function"]["name"], "shell");
    assert_eq!(tools[0]["function"]["description"], "Run a shell command");
}

#[test]
fn handles_string_input() {
    let body = parsed(
        r#"{
        "model": "x",
        "input": "hello world"
    }"#,
    );
    let (chat, _) = translate_request(&body, "qwen/qwen3", false).unwrap();
    let messages = chat.get("messages").unwrap().as_array().unwrap();
    assert_eq!(messages.len(), 1);
    assert_eq!(messages[0]["role"], "user");
    assert_eq!(messages[0]["content"], "hello world");
}

#[test]
fn enable_thinking_injects_reasoning_params() {
    let body = parsed(
        r#"{"model": "x", "input": "hi"}"#,
    );
    let (chat, _) = translate_request(&body, "nemotron", true).unwrap();
    assert_eq!(chat["chat_template_kwargs"]["enable_thinking"], true);
    // Note: reasoning_budget is NOT sent because some models (inkling)
    // reject it with 400 "Unsupported parameter".
    assert!(chat.get("reasoning_budget").is_none());
}

#[test]
fn enable_thinking_off_by_default_omits_reasoning_params() {
    let body = parsed(
        r#"{"model": "x", "input": "hi"}"#,
    );
    let (chat, _) = translate_request(&body, "qwen", false).unwrap();
    // Qwen3 should NOT have thinking params injected by default — this
    // was the cause of the "1m 59s for hi" slowness.
    assert!(chat.get("chat_template_kwargs").is_none());
    assert!(chat.get("reasoning_budget").is_none());
}

#[test]
fn strips_codex_specific_fields() {
    let body = parsed(
        r#"{
        "model": "gpt-5.6-sol",
        "input": "hi",
        "store": true,
        "include": ["reasoning.encrypted_content"],
        "service_tier": "priority",
        "prompt_cache_key": "abc123",
        "text": {"format": {"type": "text"}},
        "client_metadata": {"turn_id": "xyz"},
        "reasoning": {"effort": "high"}
    }"#,
    );
    let (chat, _) = translate_request(&body, "qwen", false).unwrap();
    // None of these codex-specific fields should appear in the chat body
    // (NIM would reject them with 400).
    assert!(chat.get("store").is_none());
    assert!(chat.get("include").is_none());
    assert!(chat.get("service_tier").is_none());
    assert!(chat.get("prompt_cache_key").is_none());
    assert!(chat.get("text").is_none());
    assert!(chat.get("client_metadata").is_none());
    assert!(chat.get("reasoning").is_none());
}

#[test]
fn translates_image_input() {
    let body = parsed(
        r#"{
        "model": "gpt-5.6-sol",
        "input": [{
            "type": "message",
            "role": "user",
            "content": [
                {"type": "input_text", "text": "What's in this image?"},
                {"type": "input_image", "image_url": "data:image/png;base64,iVBOR..."}
            ]
        }]
    }"#,
    );
    let (chat, _) = translate_request(&body, "qwen/qwen2.5-vl", false).unwrap();
    let messages = chat.get("messages").unwrap().as_array().unwrap();
    // Content should be an array (because it has an image), not a plain string.
    assert!(messages[0]["content"].is_array());
    let content = messages[0]["content"].as_array().unwrap();
    assert_eq!(content.len(), 2);
    assert_eq!(content[0]["type"], "text");
    assert_eq!(content[1]["type"], "image_url");
    assert!(content[1]["image_url"]["url"].as_str().unwrap().starts_with("data:image/png"));
}

#[test]
fn text_only_content_returns_plain_string() {
    let body = parsed(
        r#"{
        "model": "gpt-5.6-sol",
        "input": [{
            "type": "message",
            "role": "user",
            "content": [
                {"type": "input_text", "text": "hello"},
                {"type": "input_text", "text": "world"}
            ]
        }]
    }"#,
    );
    let (chat, _) = translate_request(&body, "qwen", false).unwrap();
    let messages = chat.get("messages").unwrap().as_array().unwrap();
    // Text-only content should be a plain string (joined), not an array.
    assert!(messages[0]["content"].is_string());
    assert_eq!(messages[0]["content"], "hello\nworld");
}

#[test]
fn drops_tool_choice_when_no_tools() {
    // Codex sends tool_choice="auto" even on simple "hi" turns where no
    // tools are needed. NIM rejects this with 400. We must drop it.
    let body = parsed(
        r#"{
        "model": "gpt-5.6-sol",
        "input": "hi",
        "tool_choice": "auto",
        "parallel_tool_calls": false
    }"#,
    );
    let (chat, _) = translate_request(&body, "inkling", false).unwrap();
    assert!(chat.get("tool_choice").is_none(), "tool_choice must be dropped when no tools");
    assert!(chat.get("parallel_tool_calls").is_none(), "parallel_tool_calls must be dropped when no tools");
}

#[test]
fn keeps_tool_choice_when_tools_present() {
    let body = parsed(
        r#"{
        "model": "gpt-5.6-sol",
        "input": "list files",
        "tool_choice": "auto",
        "parallel_tool_calls": true,
        "tools": [
            {"type": "function", "name": "shell", "parameters": {"type": "object"}, "description": "Run a shell command"}
        ]
    }"#,
    );
    let (chat, _) = translate_request(&body, "inkling", false).unwrap();
    assert_eq!(chat["tool_choice"], "auto");
    assert_eq!(chat["parallel_tool_calls"], true);
}

#[test]
fn drops_web_search_options() {
    let body = parsed(
        r#"{
        "model": "gpt-5.6-sol",
        "input": "hi",
        "web_search_options": {"search_context_size": "medium"}
    }"#,
    );
    let (chat, _) = translate_request(&body, "inkling", false).unwrap();
    assert!(chat.get("web_search_options").is_none());
}

fn chat(text: &str) -> Value {
    translate_request(&parsed(text), "b", false).unwrap().0
}

#[test]
fn a_body_that_is_no_object_is_an_error() {
    for text in ["[]", "null", "3", "\"x\"", "true"] {
        let e = translate_request(&parsed(text), "b", true).unwrap_err();
        assert_eq!(e.message(), "responses request body must be a JSON object");
    }
}

#[test]
fn an_empty_request_has_no_messages() {
    let (chat, model) = translate_request(&parsed("{}"), "b", false).unwrap();
    assert_eq!(chat.to_string(), r#"{"messages":[],"model":"b","stream":true}"#);
    assert_eq!(model, "unknown");
}

#[test]
fn blank_instructions_are_left_out() {
    let c = chat(r#"{"instructions":" \n\t ","input":"x"}"#);
    assert_eq!(c["messages"].to_string(), r#"[{"content":"x","role":"user"}]"#);
}

#[test]
fn sampling_parameters_pass_through() {
    let c = chat(
        r#"{"temperature":0.5,"top_p":1,"stop":["a"],"user":"u","max_tokens":9,"seed":3}"#,
    );
    assert_eq!(
        c.to_string(),
        r#"{"max_tokens":9,"messages":[],"model":"b","stop":["a"],"stream":true,"temperature":0.5,"top_p":1,"user":"u"}"#
    );
}

#[test]
fn max_output_tokens_comes_before_max_tokens() {
    let c = chat(r#"{"max_output_tokens":1,"max_tokens":2}"#);
    assert_eq!(c["max_tokens"], 1);
    assert!(c.get("max_output_tokens").is_none());
}

#[test]
fn a_named_tool_choice_is_nested() {
    let c = chat(
        r#"{"tools":[{"name":"f"}],"tool_choice":{"type":"function","name":"f","extra":1}}"#,
    );
    assert_eq!(
        c["tool_choice"].to_string(),
        r#"{"function":{"name":"f"},"type":"function"}"#
    );
    assert_eq!(
        c["tools"].to_string(),
        r#"[{"function":{"name":"f","parameters":{}},"type":"function"}]"#
    );
}

#[test]
fn a_tool_choice_of_another_kind_is_dropped() {
    let c = chat(r#"{"tools":[{"name":"f"}],"tool_choice":{"type":"web"}}"#);
    assert!(c.get("tool_choice").is_none());
    let c = chat(r#"{"tools":[{"name":"f"}],"tool_choice":7}"#);
    assert!(c.get("tool_choice").is_none());
}

#[test]
fn nested_tool_definitions_are_read() {
    let c = chat(
        r#"{"tools":[{"type":"function","function":{"name":"g","parameters":[1],"description":"d"},"name":"f"}]}"#,
    );
    assert_eq!(
        c["tools"].to_string(),
        r#"[{"function":{"description":"d","name":"g","parameters":[1]},"type":"function"}]"#
    );
}

#[test]
fn tools_that_are_no_functions_are_dropped() {
    let c = chat(
        r#"{"tools":[{"type":"web_search"},7,{"type":"function"}],"tool_choice":"auto","parallel_tool_calls":true}"#,
    );
    assert!(c.get("tools").is_none());
    assert!(c.get("tool_choice").is_none());
    assert!(c.get("parallel_tool_calls").is_none());
}

#[test]
fn calls_in_a_row_are_one_message() {
    let c = chat(
        r#"{"input":[
            {"type":"function_call","name":"a","call_id":"1"},
            {"type":"reasoning"},
            7,
            {"type":"unknown"},
            {"type":"function_call","arguments":"{\"x\":1}"},
            {"type":"function_call_output","call_id":"1","output":{"k":[1]}},
            {"type":"function_call_output"},
            {"type":"function_call","name":"c","call_id":"3"}
        ]}"#,
    );
    assert_eq!(
        c["messages"].to_string(),
        concat_lines(&[
            r#"[{"content":null,"role":"assistant","tool_calls":["#,
            r#"{"function":{"arguments":"{}","name":"a"},"id":"1","type":"function"},"#,
            r#"{"function":{"arguments":"{\"x\":1}","name":""},"id":"call","type":"function"}]},"#,
            r#"{"content":"{\"k\":[1]}","role":"tool","tool_call_id":"1"},"#,
            r#"{"content":"","role":"tool","tool_call_id":""},"#,
            r#"{"content":null,"role":"assistant","tool_calls":["#,
            r#"{"function":{"arguments":"{}","name":"c"},"id":"3","type":"function"}]}]"#,
        ])
    );
}

fn concat_lines(parts: &[&str]) -> String {
    parts.concat()
}

#[test]
fn content_of_every_kind_is_built() {
    assert_eq!(build_chat_content(None), "");
    assert_eq!(build_chat_content(Some(&parsed("\"s\""))), "s");
    assert_eq!(build_chat_content(Some(&parsed("[]"))), "");
    assert_eq!(build_chat_content(Some(&parsed("{\"a\": 1}"))), "{\"a\":1}");
    assert_eq!(build_chat_content(Some(&parsed("null"))), "null");
    let parts = parsed(
        r#"[{"type":"output_text","text":"a"},{"type":"input_audio","text":"x"},{"type":"text","text":"b"},{"type":"text"},5]"#,
    );
    assert_eq!(build_chat_content(Some(&parts)), "a\nb");
    assert_eq!(message_content_to_string(Some(&parts)), "a\nb");
    let images = parsed(r#"[{"type":"input_image"},{"type":"text","text":"b"}]"#);
    assert_eq!(
        message_content_to_string(Some(&images)),
        r#"[{"text":"b","type":"text"}]"#
    );
}

#[test]
fn a_message_without_a_role_is_the_users() {
    let c = chat(r#"{"input":[{"type":"message","content":"x"}]}"#);
    assert_eq!(c["messages"].to_string(), r#"[{"content":"x","role":"user"}]"#);
}

#[test]
fn an_input_of_another_kind_is_no_conversation() {
    let c = chat(r#"{"instructions":"i","input":{"a":1}}"#);
    assert_eq!(c["messages"].to_string(), r#"[{"content":"i","role":"system"}]"#);
}

#[test]
fn a_conversation_can_be_cut_after_a_message() {
    let items = [
        r#"{"type":"function_call","name":"a","call_id":"1"}"#,
        r#"{"type":"message","role":"assistant","content":"x"}"#,
        r#"{"type":"function_call_output","call_id":"1","output":"y"}"#,
        r#"{"type":"function_call","name":"b","call_id":"2"}"#,
    ];
    let whole = build_chat_messages("", &parsed(&format!("[{}]", items.join(","))));
    let mut parts = build_chat_messages("", &parsed(&format!("[{}]", items[..2].join(","))));
    parts.extend(build_chat_messages("", &parsed(&format!("[{}]", items[2..].join(",")))));
    assert_eq!(whole.len(), 4);
    assert_eq!(whole, parts);
}
