//! Text.

use codex_nim_proxy::text::blank;
use codex_nim_proxy::text::split_lines;
use codex_nim_proxy::text::str_eq;
use codex_nim_proxy::text::strip_prefix;
use codex_nim_proxy::text::trim;
use codex_nim_proxy::text::trim_end;
use codex_nim_proxy::text::CharClass;

#[test]
fn white_space_is_what_the_standard_library_says() {
    for n in 0..=0x10ffffu32 {
        if let Some(c) = char::from_u32(n) {
            assert_eq!(CharClass::WhiteSpace.contains(c), c.is_whitespace());
        }
    }
}

#[test]
fn text_is_trimmed() {
    assert_eq!(trim("\u{2003} a b\t\n"), "a b");
    assert_eq!(trim(" \u{85}"), "");
    assert_eq!(trim_end("a//b///", CharClass::Slash), "a//b");
    assert_eq!(trim_end("///", CharClass::Slash), "");
    assert!(blank(" \n"));
    assert!(blank(""));
    assert!(!blank(" x "));
}

#[test]
fn a_prefix_is_stripped() {
    assert_eq!(strip_prefix("data: x", "data: "), Some("x"));
    assert_eq!(strip_prefix("data: ", "data: "), Some(""));
    assert_eq!(strip_prefix("data:", "data: "), None);
    assert_eq!(strip_prefix("\u{e9}x", "\u{e9}"), Some("x"));
}

#[test]
fn lines_are_cut_at_line_feeds() {
    let (complete, rest) = split_lines("a\r\n\nb");
    assert_eq!(complete, ["a\r", ""]);
    assert_eq!(rest, "b");
}

#[test]
fn what_one_step_leaves_over_goes_before_the_next() {
    let (a, b) = ("x\ny", "z\n\nw");
    let (mut complete, rest) = split_lines(a);
    let (more, last) = split_lines(&format!("{rest}{b}"));
    complete.extend(more);
    let (whole, whole_rest) = split_lines(&format!("{a}{b}"));
    assert_eq!(complete, whole);
    assert_eq!(complete, ["x", "yz", ""]);
    assert_eq!(last, whole_rest);
}

#[test]
fn texts_are_compared() {
    assert!(str_eq("", ""));
    assert!(str_eq("\u{e9}a", "\u{e9}a"));
    assert!(!str_eq("a", "b"));
    assert!(!str_eq("a", "ab"));
    assert!(!str_eq("ab", "a"));
}
