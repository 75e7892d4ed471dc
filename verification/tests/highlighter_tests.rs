use xerg::colors::Color;
use xerg::highlighter::TextHighlighter;
use xerg::output::render_plain_summary_line;
use xerg::result::{format_u64, render_error_line, render_header, render_match_line, render_summary_line, render_xtreme_match_line, render_xtreme_summary_line};

#[test]
fn test_highlight_wraps_every_match() {
    let hl = TextHighlighter::new("use", &Color::Blue).unwrap();
    let out = hl.highlight(b"use std::path::Path;");
    assert_eq!(out, b"\x1b[34muse\x1b[0m std::path::Path;".to_vec());
}

#[test]
fn test_highlight_all_colors() {
    for (color, code) in vec![
        (Color::Red, "31"),
        (Color::Green, "32"),
        (Color::Blue, "34"),
        (Color::Bold, "1"),
    ] {
        let hl = TextHighlighter::new("x", &color).unwrap();
        let out = hl.highlight(b"axb");
        let expected = format!("a\x1b[{}mx\x1b[0mb", code);
        assert_eq!(out, expected.as_bytes().to_vec());
    }
}

#[test]
fn test_highlight_without_match_copies_verbatim() {
    let hl = TextHighlighter::new("zz", &Color::Red).unwrap();
    let out = hl.highlight(b"nothing here");
    assert_eq!(out, b"nothing here".to_vec());
}

#[test]
fn test_count_matches_non_overlapping() {
    let hl = TextHighlighter::new("aa", &Color::Red).unwrap();
    // Non-overlapping: "aaaa" holds two matches of "aa", "aaa" holds one.
    assert_eq!(hl.count_matches(b"aaaa"), 2);
    assert_eq!(hl.count_matches(b"aaa"), 1);
    assert!(hl.is_match(b"aa"));
    assert!(!hl.is_match(b"a"));
}

#[test]
fn test_count_matches_unicode_text() {
    let hl = TextHighlighter::new("crab", &Color::Green).unwrap();
    let line = "Unicode: \u{1f980} Rust crab";
    assert_eq!(hl.count_matches(line.as_bytes()), 1);
}

#[test]
fn test_word_boundary_regex() {
    let hl = TextHighlighter::new(r"\bAdmin\b", &Color::Red).unwrap();
    assert!(hl.is_match(b"Admin: yes"));
    assert!(!hl.is_match(b"admin@test.org"));
}

#[test]
fn test_render_header_line() {
    let line = render_header(&"src/main.rs".to_string());
    assert_eq!(line, b"\x1b[1;38;5;245m--- src/main.rs\x1b[0m ---".to_vec());
}

#[test]
fn test_render_match_line_number_alignment() {
    let line = render_match_line(0, &b"x".to_vec());
    assert_eq!(line, b"  \x1b[1;38;5;245m  1:\x1b[0m  x".to_vec());
    let line2 = render_match_line(99, &b"y".to_vec());
    assert_eq!(line2, b"  \x1b[1;38;5;245m100:\x1b[0m  y".to_vec());
    let line3 = render_match_line(9999, &b"z".to_vec());
    assert_eq!(line3, b"  \x1b[1;38;5;245m10000:\x1b[0m  z".to_vec());
}

#[test]
fn test_render_error_line() {
    let line = render_error_line(&"Failed to read file x: denied".to_string());
    assert_eq!(line, b"Error: Failed to read file x: denied".to_vec());
}

#[test]
fn test_render_xtreme_match_line() {
    let line = render_xtreme_match_line(&"a/b.txt".to_string(), 4, &b"hit".to_vec());
    assert_eq!(line, b"a/b.txt:5: hit".to_vec());
}

#[test]
fn test_render_xtreme_summary_line() {
    let line = render_xtreme_summary_line(2, 10, 3, 1, 42);
    assert_eq!(line, b"# Summary: files:2, lines:10, matches:3, skipped:1, time:42ms".to_vec());
}

#[test]
fn test_format_u64_decimal() {
    assert_eq!(format_u64(0), b"0".to_vec());
    assert_eq!(format_u64(7), b"7".to_vec());
    assert_eq!(format_u64(1234567890), b"1234567890".to_vec());
    assert_eq!(format_u64(u64::MAX), b"18446744073709551615".to_vec());
}

#[test]
fn test_render_summary_zero_padding() {
    let line = render_summary_line(1, 1, 1, 0, 0, 45);
    assert!(line.ends_with(b"time:0.045s;\x1b[0m"));
    let line2 = render_summary_line(1, 1, 1, 0, 0, 1005);
    assert!(line2.ends_with(b"time:1.005s;\x1b[0m"));
}

#[test]
fn test_render_plain_summary_line() {
    let line = render_plain_summary_line(2, 7, 3, 1, 0);
    assert_eq!(
        line,
        b"\x1b[1;38;5;245mSummary: files: 2\tlines: 7\tmatches: 3\tskipped: 1\terrors: 0\x1b[0m"
            .to_vec()
    );
}

#[test]
fn test_zero_width_matches() {
    // A pattern that can match the empty string matches once at every
    // position the engine reports; highlighting inserts empty wrappers.
    let hl = TextHighlighter::new("a*", &Color::Red).unwrap();
    assert_eq!(hl.count_matches(b""), 1);
    assert_eq!(hl.highlight(b""), b"\x1b[31m\x1b[0m".to_vec());
    assert_eq!(hl.count_matches(b"aa"), 1);
    assert_eq!(hl.count_matches(b"b aa b"), 5);
}
