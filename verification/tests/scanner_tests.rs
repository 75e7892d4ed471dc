use xerg::colors::Color;
use xerg::highlighter::TextHighlighter;
use xerg::result::{print_result, render_summary_line, ResultMessage};
use xerg::scanner::{error_batch, process_content, process_events, process_file_content, process_file_events, scan_line, LineEvent};

fn red(pattern: &str) -> TextHighlighter {
    TextHighlighter::new(pattern, &Color::Red).expect("pattern must compile")
}

#[test]
fn test_scan_hello_file() {
    // File a.txt with three lines, pattern "Hello", colour red, stats on.
    let hl = red("Hello");
    let content = b"Hello world\nThis is a test\nHello again\n";
    let batch = process_file_content(&"a.txt".to_string(), &hl, content, true);

    assert_eq!(batch.len(), 5);
    assert_eq!(batch[0], ResultMessage::Header("a.txt".to_string()));
    assert_eq!(
        batch[1],
        ResultMessage::Line { index: 0, content: b"\x1b[31mHello\x1b[0m world".to_vec() }
    );
    assert_eq!(
        batch[2],
        ResultMessage::Line { index: 2, content: b"\x1b[31mHello\x1b[0m again".to_vec() }
    );
    assert_eq!(batch[3], ResultMessage::SearchStats { lines: 3, matched: 2, skipped: 0 });
    assert_eq!(batch[4], ResultMessage::Done);

    let totals = print_result(&vec![batch], true, 0);
    assert_eq!(totals.files, 1);
    assert_eq!(totals.lines, 3);
    assert_eq!(totals.matched, 2);
    assert_eq!(totals.skipped, 0);
    assert_eq!(totals.errors, 0);
}

#[test]
fn test_scan_repeated_matches_on_one_line() {
    // "foo foo foo" holds three non-overlapping matches of "foo".
    let hl = red("foo");
    let batch = process_file_content(&"f.txt".to_string(), &hl, b"foo foo foo\n", true);
    assert_eq!(batch.len(), 4);
    assert!(matches!(batch[1], ResultMessage::Line { index: 0, .. }));
    assert_eq!(batch[2], ResultMessage::SearchStats { lines: 1, matched: 3, skipped: 0 });
}

#[test]
fn test_scan_empty_file() {
    // Empty file: header, optional zero statistics, done.
    let hl = red("anything");
    let with_stats = process_file_content(&"empty.txt".to_string(), &hl, b"", true);
    assert_eq!(
        with_stats,
        vec![
            ResultMessage::Header("empty.txt".to_string()),
            ResultMessage::SearchStats { lines: 0, matched: 0, skipped: 0 },
            ResultMessage::Done,
        ]
    );
    let without = process_file_content(&"empty.txt".to_string(), &hl, b"", false);
    assert_eq!(
        without,
        vec![ResultMessage::Header("empty.txt".to_string()), ResultMessage::Done]
    );
}

#[test]
fn test_last_line_without_newline_counted_once() {
    let hl = red("x");
    let (_, lines_a, _) = process_content(&hl, b"a\nb");
    let (_, lines_b, _) = process_content(&hl, b"a\nb\n");
    assert_eq!(lines_a, 2);
    assert_eq!(lines_b, 2);
}

#[test]
fn test_scan_no_matches() {
    let hl = red("NotFound");
    let batch = process_file_content(&"t.txt".to_string(), &hl, b"Hello world\nThis is a test\n", true);
    assert_eq!(batch.len(), 3);
    assert_eq!(batch[1], ResultMessage::SearchStats { lines: 2, matched: 0, skipped: 0 });
}

#[test]
fn test_scan_is_deterministic() {
    // The same (pattern, content) twice gives record-for-record equal
    // batches.
    let hl1 = red("He(l+)o");
    let hl2 = red("He(l+)o");
    let content = b"Hello world\nHeo Helllo\n";
    let b1 = process_file_content(&"p".to_string(), &hl1, content, true);
    let b2 = process_file_content(&"p".to_string(), &hl2, content, true);
    assert_eq!(b1, b2);
}

#[test]
fn test_highlight_not_idempotent() {
    // Highlighting an already highlighted line nests new escapes: the
    // result differs, so no test may assume idempotence.
    let hl = red("a");
    let once = hl.highlight(b"a");
    assert_eq!(once, b"\x1b[31ma\x1b[0m".to_vec());
    let twice = hl.highlight(once.as_slice());
    assert_ne!(twice, once);
}

#[test]
fn test_streaming_events_skip_failed_lines() {
    // Line indices advance across skipped lines; lines + skipped equals the
    // number of physical lines.
    let hl = red("b");
    let events = vec![
        LineEvent::Read(b"a b".to_vec()),
        LineEvent::Failed,
        LineEvent::Read(b"b".to_vec()),
    ];
    let (msgs, lines, matched, skipped) = process_events(&hl, &events);
    assert_eq!(lines, 2);
    assert_eq!(skipped, 1);
    assert_eq!(matched, 2);
    assert_eq!(msgs.len(), 2);
    assert!(matches!(msgs[0], ResultMessage::Line { index: 0, .. }));
    assert!(matches!(msgs[1], ResultMessage::Line { index: 2, .. }));
}

#[test]
fn test_streaming_batch_stats() {
    let hl = red("hit");
    let events = vec![LineEvent::Read(b"hit".to_vec()), LineEvent::Failed];
    let batch = process_file_events(&"s.txt".to_string(), &hl, &events, true);
    assert_eq!(batch.len(), 4);
    assert_eq!(batch[2], ResultMessage::SearchStats { lines: 1, matched: 1, skipped: 1 });
}

#[test]
fn test_error_batch_shape() {
    let batch = error_batch(&"gone.txt".to_string(), "Failed to open file gone.txt".to_string());
    assert_eq!(
        batch,
        vec![
            ResultMessage::Header("gone.txt".to_string()),
            ResultMessage::Error("Failed to open file gone.txt".to_string()),
            ResultMessage::Done,
        ]
    );
}

#[test]
fn test_scan_line_counts_and_highlights() {
    let hl = red("o");
    match scan_line(&hl, b"foo") {
        Some((cnt, v)) => {
            assert_eq!(cnt, 2);
            assert_eq!(v, b"f\x1b[31mo\x1b[0m\x1b[31mo\x1b[0m".to_vec());
        }
        None => panic!("expected a match"),
    }
    assert!(scan_line(&hl, b"xyz").is_none());
}

#[test]
fn test_regex_pattern_matching() {
    // A regular expression, not only a literal: one email per line.
    let hl = red(r"\w+@\w+\.\w+");
    let content = b"email@example.com\ntest@domain.org\nnot an email\n";
    let batch = process_file_content(&"m.txt".to_string(), &hl, content, true);
    assert_eq!(batch[3], ResultMessage::SearchStats { lines: 3, matched: 2, skipped: 0 });
}

#[test]
fn test_case_sensitive_matching() {
    let hl = red("Hello");
    let content = b"Hello World\nhello world\nHELLO WORLD\n";
    let batch = process_file_content(&"c.txt".to_string(), &hl, content, true);
    assert_eq!(batch[2], ResultMessage::SearchStats { lines: 3, matched: 1, skipped: 0 });
}

#[test]
fn test_summary_line_rendering() {
    let line = render_summary_line(1, 3, 2, 0, 0, 2);
    assert_eq!(
        line,
        b"\x1b[1;38;5;245mresult: files:1; lines:3; matches:2; skipped:0; errors:0; time:0.002s;\x1b[0m".to_vec()
    );
    let line2 = render_summary_line(12, 1699, 85, 0, 3, 12345);
    assert_eq!(
        line2,
        b"\x1b[1;38;5;245mresult: files:12; lines:1699; matches:85; skipped:0; errors:3; time:12.345s;\x1b[0m".to_vec()
    );
}

#[test]
fn test_empty_pattern_rejected() {
    assert!(TextHighlighter::new("", &Color::Red).is_none());
}

#[test]
fn test_invalid_pattern_rejected() {
    assert!(TextHighlighter::new("[", &Color::Red).is_none());
}

#[test]
fn test_stripping_escapes_recovers_line() {
    // Removing every ESC..m span from a highlighted line gives back the
    // original line.
    let hl = red("l+");
    let out = hl.highlight(b"hello world");
    let mut stripped: Vec<u8> = Vec::new();
    let mut in_escape = false;
    for &b in out.iter() {
        if in_escape {
            if b == b'm' {
                in_escape = false;
            }
        } else if b == 27 {
            in_escape = true;
        } else {
            stripped.push(b);
        }
    }
    assert_eq!(stripped, b"hello world".to_vec());
}
