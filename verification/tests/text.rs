#![allow(non_snake_case)]

use rproxy::text::{
    afterLast, charsOf, countOf, eqIgnoreAsciiCase, holdsText, isWhiteSpace, positionOf, splitAt,
    splitLines, splitWords, startsWith, stringOf, trimmed,
};

#[test]
fn white_space_is_what_the_standard_library_says() {
    for code in 0..0x110000u32 {
        if let Some(c) = char::from_u32(code) {
            assert_eq!(isWhiteSpace(c), c.is_whitespace(), "U+{:04X}", code);
        }
    }
}

#[test]
fn trimming_agrees_with_the_standard_library() {
    for text in ["", " ", "a", "  a b \t", "\u{3000}x\u{a0}", "\r\n", "x\r", "\u{200b}y "] {
        assert_eq!(stringOf(trimmed(&charsOf(text))), text.trim(), "{:?}", text);
    }
}

#[test]
fn characters_make_the_string_again() {
    let text = "a\u{e9}\u{4e2d}\u{1f600}\r\n";
    assert_eq!(stringOf(&charsOf(text)), text);
    assert_eq!(charsOf(text).len(), 6);
}

#[test]
fn letters_match_in_either_case() {
    assert!(eqIgnoreAsciiCase("Content-Length", "content-LENGTH"));
    assert!(!eqIgnoreAsciiCase("Content-Length", "content_length"));
    assert!(!eqIgnoreAsciiCase("a", "ab"));
    assert!(!eqIgnoreAsciiCase("\u{c9}", "\u{e9}"));
    assert!(!eqIgnoreAsciiCase("@", "`"));
    assert!(!eqIgnoreAsciiCase("[", "{"));
}

#[test]
fn searching_finds_the_first_and_the_last() {
    let text = charsOf("a:b:c");
    assert_eq!(positionOf(&text, ':'), 1);
    assert_eq!(positionOf(&text, 'x'), 5);
    assert_eq!(countOf(&text, ':'), 2);
    assert_eq!(stringOf(afterLast(&text, ':')), "c");
    assert_eq!(stringOf(afterLast(&text, 'x')), "a:b:c");
    assert_eq!(stringOf(afterLast(&charsOf("a@"), '@')), "");
    assert!(holdsText(&text, &charsOf("b:")));
    assert!(!holdsText(&text, &charsOf("bc")));
    assert!(holdsText(&text, &charsOf("")));
    assert!(startsWith(&text, &charsOf("a:")));
    assert!(!startsWith(&charsOf("a"), &charsOf("a:")));
}

#[test]
fn splitting_agrees_with_the_standard_library() {
    for text in ["", ",", "a", "a,b", ",a,,b,", "x\u{4e2d},y"] {
        let expected: Vec<String> = text.split(',').map(|piece| piece.to_string()).collect();
        assert_eq!(splitAt(&charsOf(text), ','), expected, "{:?}", text);
    }
    for text in ["", "\r\n", "a", "a\r\nb", "a\r\n\r\n", "a\r\r\nb\n\rc", "\n\r"] {
        let expected: Vec<String> = text.split("\r\n").map(|line| line.to_string()).collect();
        assert_eq!(splitLines(text), expected, "{:?}", text);
    }
    for text in ["", " ", "GET / HTTP/1.1", "  a \t b\u{3000}c ", "one"] {
        let expected: Vec<String> = text.split_whitespace().map(|w| w.to_string()).collect();
        assert_eq!(splitWords(text), expected, "{:?}", text);
    }
}
