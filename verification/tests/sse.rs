//! The decoder of server-sent events, and the converter around it.

use codex_nim_proxy::ids::IdSource;
use codex_nim_proxy::sse::read_line;
use codex_nim_proxy::sse::SseDecoder;
use codex_nim_proxy::sse::SseEvent;
use codex_nim_proxy::sse::DONE_LINE;
use codex_nim_proxy::translate::ChatChoice;
use codex_nim_proxy::translate::ChatChunk;
use codex_nim_proxy::translate::ChatDelta;
use codex_nim_proxy::translate::ChatToResponsesStream;
use codex_nim_proxy::translate::StreamConverter;

/// What events say; the end of the stream is `None`.
fn said(events: Vec<SseEvent>) -> Vec<Option<String>> {
    events
        .into_iter()
        .map(|e| match e {
            SseEvent::Data(payload) => Some(payload),
            SseEvent::Done => None,
        })
        .collect()
}

fn data(payload: &str) -> Option<String> {
    Some(payload.to_string())
}

#[test]
fn a_line_is_read() {
    assert!(read_line("").is_none());
    assert!(read_line(": comment").is_none());
    assert!(read_line("data:x").is_none());
    assert!(read_line(" data: x").is_none());
    assert!(matches!(read_line("data:   [DONE] \r"), Some(SseEvent::Done)));
    assert!(matches!(read_line("data: \u{a0}x y\r"), Some(SseEvent::Data(p)) if p == "x y"));
    assert!(matches!(read_line("data: "), Some(SseEvent::Data(p)) if p.is_empty()));
}

#[test]
fn lines_are_completed_by_line_feeds() {
    let mut d = SseDecoder::new();
    assert_eq!(said(d.feed(b"data: a\r\n\ndata: b")), [data("a")]);
    assert_eq!(said(d.feed(b"")), []);
    assert_eq!(said(d.feed(b"c\n")), [data("bc")]);
}

#[test]
fn nothing_is_read_after_the_end() {
    let mut d = SseDecoder::new();
    assert_eq!(
        said(d.feed(b"data: a\ndata: [DONE]\ndata: b\n")),
        [data("a"), None]
    );
}

#[test]
fn the_pieces_make_no_difference() {
    let whole = "data: {\"a\":\"\u{e9}\u{1f600}\"}\r\n\r\nevent: x\ndata: two\n\ndata: [DONE]\n\n";
    let mut d = SseDecoder::new();
    let expected = said(d.feed(whole.as_bytes()));
    assert_eq!(expected, [data("{\"a\":\"\u{e9}\u{1f600}\"}"), data("two"), None]);
    for cut in 0..=whole.len() {
        if !whole.is_char_boundary(cut) {
            continue;
        }
        let mut d = SseDecoder::new();
        let mut events = said(d.feed(whole[..cut].as_bytes()));
        events.extend(said(d.feed(whole[cut..].as_bytes())));
        assert_eq!(events, expected);
    }
}

#[test]
fn bytes_that_are_no_text_are_replaced() {
    let mut d = SseDecoder::new();
    assert_eq!(said(d.feed(b"data: a\xffb\n")), [data("a\u{fffd}b")]);
}

#[test]
fn written_events_are_read_back() {
    let mut state = ChatToResponsesStream::new_at("m\n[DONE]".to_string(), &mut IdSource::new(), 0, 0);
    let mut out = state.ensure_created();
    out.push_str(&state.emit_failed("line\r\nfeed"));
    out.push_str(DONE_LINE);
    let events = said(SseDecoder::new().feed_text(&out));
    assert_eq!(events.len(), 3);
    let written: Vec<&str> = out.split("\n\n").collect();
    assert_eq!(format!("data: {}", events[0].as_ref().unwrap()), written[0]);
    assert_eq!(format!("data: {}", events[1].as_ref().unwrap()), written[1]);
    assert!(events[2].is_none());
}

fn chunk(content: &str) -> ChatChunk {
    ChatChunk {
        id: None,
        model: None,
        choices: vec![ChatChoice {
            index: 0,
            delta: ChatDelta {
                role: None,
                content: Some(content.to_string()),
                tool_calls: None,
                reasoning_content: None,
            },
            finish_reason: None,
        }],
        usage: None,
    }
}

#[test]
fn an_answer_is_converted() {
    let mut ids = IdSource::new();
    let mut c = StreamConverter::new_at("m".to_string(), &mut ids, 0, 0);
    let begun = c.start();
    assert_eq!(begun.len(), 1);
    assert!(begun[0].contains("response.created"));
    assert!(c.start().is_empty());
    let events = c.read(b"data: one\n\ndata: nonsense\n\ndata: [DONE]\n\n");
    assert_eq!(events.len(), 3);
    let out = c.take_event(&events[0], Some(&chunk("hi")), &mut ids);
    assert!(!out.last);
    assert_eq!(out.items.len(), 1);
    assert!(out.items[0].contains("\"delta\":\"hi\""));
    let out = c.take_event(&events[1], None, &mut ids);
    assert!(!out.last);
    assert!(out.items.is_empty());
    let out = c.take_event(&events[2], None, &mut ids);
    assert!(out.last);
    assert_eq!(ids.count, 2);
    assert_eq!(out.items.len(), 2);
    assert!(out.items[0].contains("response.completed"));
    assert_eq!(out.items[1], "data: [DONE]\n\n");
    assert_eq!(c.finish(), ["data: [DONE]\n\n"]);
}

#[test]
fn a_read_error_fails_the_answer() {
    let mut c = StreamConverter::new("m".to_string(), &mut IdSource::new());
    let _ = c.start();
    let out = c.fail("broken");
    assert_eq!(out.len(), 2);
    assert!(out[0].contains("\"message\":\"upstream read error: broken\""));
    assert_eq!(out[1], "data: [DONE]\n\n");
    let out = c.finish();
    assert_eq!(out.len(), 2);
    assert_eq!(out[0].matches("response.completed").count(), 1);
    assert_eq!(out[1], "data: [DONE]\n\n");
}

/// The items that are sent for an upstream that comes in pieces, with the clock at 0.
fn answer(pieces: &[&[u8]]) -> Vec<String> {
    let mut ids = IdSource::new();
    let mut c = StreamConverter::new_at("m".to_string(), &mut ids, 0, 0);
    let mut out = c.start();
    for piece in pieces {
        for event in c.read(piece) {
            let read = match &event {
                SseEvent::Data(payload) if payload != "nonsense" => Some(chunk(payload)),
                _ => None,
            };
            let sent = c.take_event_at(&event, read.as_ref(), &mut ids, 0);
            out.extend(sent.items);
            if sent.last {
                return out;
            }
        }
    }
    out.extend(c.finish());
    out
}

#[test]
fn the_cuts_make_no_difference_to_the_answer() {
    for whole in [
        "data: h\u{e9}\n\ndata: nonsense\ndata: two\ndata: [DONE]\ndata: never\n",
        "data: one\n\ndata: two\ndata: incomplete",
    ] {
        let expected = answer(&[whole.as_bytes()]);
        assert_eq!(expected.last().unwrap(), "data: [DONE]\n\n");
        let text = expected.concat();
        assert!(!text.contains("never") && !text.contains("incomplete"));
        for cut in 0..=whole.len() {
            if whole.is_char_boundary(cut) {
                let (a, b) = whole.split_at(cut);
                assert_eq!(answer(&[a.as_bytes(), b.as_bytes()]), expected);
            }
        }
        let chars: Vec<String> = whole.chars().map(String::from).collect();
        let pieces: Vec<&[u8]> = chars.iter().map(|c| c.as_bytes()).collect();
        assert_eq!(answer(&pieces), expected);
    }
}
