use xerg::output::OutputMessage;
use xerg::result::{print_result, FileMatchResult, ResultMessage};

#[test]
fn result_test_result_message_variants() {
    // Test that all ResultMessage variants can be created
    let header = ResultMessage::Header("test.txt".to_string());
    let line = ResultMessage::Line { index: 0, content: b"test content".to_vec() };
    let stats = ResultMessage::SearchStats { lines: 10, matched: 5, skipped: 2 };
    let error = ResultMessage::Error("test error".to_string());
    let done = ResultMessage::Done;

    match header {
        ResultMessage::Header(_) => {}
        _ => panic!("Header variant failed"),
    }
    match line {
        ResultMessage::Line { .. } => {}
        _ => panic!("Line variant failed"),
    }
    match stats {
        ResultMessage::SearchStats { .. } => {}
        _ => panic!("SearchStats variant failed"),
    }
    match error {
        ResultMessage::Error(_) => {}
        _ => panic!("Error variant failed"),
    }
    match done {
        ResultMessage::Done => {}
        _ => panic!("Done variant failed"),
    }
}

#[test]
fn result_test_print_result_with_stats() {
    let messages = vec![
        ResultMessage::Header("test.txt".to_string()),
        ResultMessage::Line { index: 0, content: b"found match".to_vec() },
        ResultMessage::SearchStats { lines: 5, matched: 1, skipped: 0 },
        ResultMessage::Done,
    ];

    let totals = print_result(&vec![messages], true, 0);
    assert_eq!(totals.files, 1);
    assert_eq!(totals.lines, 5);
    assert_eq!(totals.matched, 1);
    assert_eq!(totals.skipped, 0);
    assert_eq!(totals.errors, 0);
}

#[test]
fn result_test_print_result_without_stats() {
    let messages = vec![
        ResultMessage::Header("test.txt".to_string()),
        ResultMessage::Line { index: 0, content: b"found match".to_vec() },
        ResultMessage::SearchStats { lines: 5, matched: 1, skipped: 0 },
        ResultMessage::Done,
    ];

    // This should not display stats, but still accumulate them.
    let totals = print_result(&vec![messages], false, 0);
    assert_eq!(totals.lines, 5);
}

#[test]
fn result_test_print_result_with_errors() {
    let messages = vec![
        ResultMessage::Header("test.txt".to_string()),
        ResultMessage::Error("Failed to read file".to_string()),
        ResultMessage::SearchStats { lines: 0, matched: 0, skipped: 5 },
        ResultMessage::Done,
    ];

    let totals = print_result(&vec![messages], true, 0);
    assert_eq!(totals.errors, 1);
    assert_eq!(totals.skipped, 5);
}

#[test]
fn result_test_print_result_multiple_files() {
    let messages1 = vec![
        ResultMessage::Header("file1.txt".to_string()),
        ResultMessage::Line { index: 0, content: b"match in file 1".to_vec() },
        ResultMessage::SearchStats { lines: 10, matched: 2, skipped: 0 },
        ResultMessage::Done,
    ];

    let messages2 = vec![
        ResultMessage::Header("file2.txt".to_string()),
        ResultMessage::Line { index: 5, content: b"match in file 2".to_vec() },
        ResultMessage::SearchStats { lines: 8, matched: 1, skipped: 1 },
        ResultMessage::Done,
    ];

    let totals = print_result(&vec![messages1, messages2], true, 0);
    assert_eq!(totals.files, 2);
    assert_eq!(totals.lines, 18);
    assert_eq!(totals.matched, 3);
    assert_eq!(totals.skipped, 1);
}

#[test]
fn result_test_print_result_empty_results() {
    // Should handle empty results gracefully
    let totals = print_result(&Vec::new(), true, 0);
    assert_eq!(totals.files, 0);
}

#[test]
fn result_test_file_match_result_type() {
    let result: FileMatchResult = vec![
        ResultMessage::Header("test.txt".to_string()),
        ResultMessage::Done,
    ];

    assert_eq!(result.len(), 2);
    match &result[0] {
        ResultMessage::Header(path) => {
            assert_eq!(path, &"test.txt".to_string());
        }
        _ => panic!("Expected Header message"),
    }
}

#[test]
fn result_test_search_stats_fields() {
    let stats = ResultMessage::SearchStats { lines: 100, matched: 25, skipped: 3 };

    if let ResultMessage::SearchStats { lines, matched, skipped } = stats {
        assert_eq!(lines, 100);
        assert_eq!(matched, 25);
        assert_eq!(skipped, 3);
    } else {
        panic!("Expected SearchStats variant");
    }
}

#[test]
fn test_output_message_variants() {
    // Test that all OutputMessage variants can be created
    let header = OutputMessage::Header("test.txt".to_string());
    let line = OutputMessage::Line { index: 0, content: b"test content".to_vec() };
    let stats = OutputMessage::SearchStats { lines: 10, matched: 5, skipped: 2 };
    let error = OutputMessage::Error("test error".to_string());
    let done = OutputMessage::Done;

    match header {
        OutputMessage::Header(_) => {}
        _ => panic!("Header variant failed"),
    }
    match line {
        OutputMessage::Line { .. } => {}
        _ => panic!("Line variant failed"),
    }
    match stats {
        OutputMessage::SearchStats { .. } => {}
        _ => panic!("SearchStats variant failed"),
    }
    match error {
        OutputMessage::Error(_) => {}
        _ => panic!("Error variant failed"),
    }
    match done {
        OutputMessage::Done => {}
        _ => panic!("Done variant failed"),
    }
}

#[test]
fn output_test_file_match_result_type() {
    let result: xerg::output::FileMatchResult = vec![
        OutputMessage::Header("test.txt".to_string()),
        OutputMessage::Done,
    ];

    assert_eq!(result.len(), 2);
    match &result[0] {
        OutputMessage::Header(path) => {
            assert_eq!(path, &"test.txt".to_string());
        }
        _ => panic!("Expected Header message"),
    }
}

#[test]
fn output_test_search_stats_fields() {
    let stats = OutputMessage::SearchStats { lines: 100, matched: 25, skipped: 3 };

    if let OutputMessage::SearchStats { lines, matched, skipped } = stats {
        assert_eq!(lines, 100);
        assert_eq!(matched, 25);
        assert_eq!(skipped, 3);
    } else {
        panic!("Expected SearchStats variant");
    }
}

#[test]
fn test_print_output_with_stats() {
    let messages = vec![
        OutputMessage::Header("test.txt".to_string()),
        OutputMessage::Line { index: 0, content: b"found match".to_vec() },
        OutputMessage::SearchStats { lines: 5, matched: 1, skipped: 0 },
        OutputMessage::Done,
    ];

    xerg::output::print_output(&vec![messages], true);
}

#[test]
fn test_print_output_without_stats() {
    let messages = vec![
        OutputMessage::Header("test.txt".to_string()),
        OutputMessage::Line { index: 0, content: b"found match".to_vec() },
        OutputMessage::SearchStats { lines: 5, matched: 1, skipped: 0 },
        OutputMessage::Done,
    ];

    // This should not display stats
    xerg::output::print_output(&vec![messages], false);
}

#[test]
fn test_print_output_with_errors() {
    let messages = vec![
        OutputMessage::Header("test.txt".to_string()),
        OutputMessage::Error("Failed to read file".to_string()),
        OutputMessage::SearchStats { lines: 0, matched: 0, skipped: 5 },
        OutputMessage::Done,
    ];

    let totals = xerg::output::print_output(&vec![messages], true);
    assert_eq!(totals.errors, 1);
}

#[test]
fn test_print_output_multiple_files() {
    let messages1 = vec![
        OutputMessage::Header("file1.txt".to_string()),
        OutputMessage::Line { index: 0, content: b"match in file 1".to_vec() },
        OutputMessage::SearchStats { lines: 10, matched: 2, skipped: 0 },
        OutputMessage::Done,
    ];

    let messages2 = vec![
        OutputMessage::Header("file2.txt".to_string()),
        OutputMessage::Line { index: 5, content: b"match in file 2".to_vec() },
        OutputMessage::SearchStats { lines: 8, matched: 1, skipped: 1 },
        OutputMessage::Done,
    ];

    let totals = xerg::output::print_output(&vec![messages1, messages2], true);
    assert_eq!(totals.files, 2);
}

#[test]
fn test_print_output_empty_results() {
    // Should handle empty results gracefully
    let totals = xerg::output::print_output(&Vec::new(), true);
    assert_eq!(totals.files, 0);
}

#[test]
fn test_print_output_accumulates() {
    let messages = vec![
        OutputMessage::Header("test.txt".to_string()),
        OutputMessage::Line { index: 0, content: b"found match".to_vec() },
        OutputMessage::SearchStats { lines: 4, matched: 2, skipped: 1 },
        OutputMessage::Done,
    ];
    let totals = xerg::output::print_output(&vec![messages], true);
    assert_eq!(totals.files, 1);
    assert_eq!(totals.lines, 4);
    assert_eq!(totals.matched, 2);
    assert_eq!(totals.skipped, 1);
    assert_eq!(totals.errors, 0);
}

#[test]
fn test_print_result_xtreme_totals() {
    let messages = vec![
        ResultMessage::Header("test.txt".to_string()),
        ResultMessage::Line { index: 0, content: b"found match".to_vec() },
        ResultMessage::SearchStats { lines: 3, matched: 2, skipped: 0 },
        ResultMessage::Done,
    ];
    let totals = xerg::result::print_result_xtreme(&vec![messages], true, 1);
    assert_eq!(totals.files, 1);
    assert_eq!(totals.lines, 3);
    assert_eq!(totals.matched, 2);
}

#[test]
fn test_print_xtreme_stats_runs() {
    xerg::result::print_xtreme_stats(1, 2, 3, 0, 5);
}

#[test]
fn test_print_result_counts_done_records() {
    // files processed is the number of Done records consumed, even for
    // batches that carry no statistics record.
    let b1 = vec![
        ResultMessage::Header("a".to_string()),
        ResultMessage::Done,
    ];
    let b2 = vec![
        ResultMessage::Header("b".to_string()),
        ResultMessage::Error("Failed to open file b".to_string()),
        ResultMessage::Done,
    ];
    let totals = print_result(&vec![b1, b2], false, 0);
    assert_eq!(totals.files, 2);
    assert_eq!(totals.errors, 1);
}

#[test]
fn test_print_result_stops_at_done() {
    // Records after Done in one batch are not consumed.
    let b = vec![
        ResultMessage::Header("a".to_string()),
        ResultMessage::Done,
        ResultMessage::SearchStats { lines: 9, matched: 9, skipped: 9 },
    ];
    let totals = print_result(&vec![b], true, 0);
    assert_eq!(totals.files, 1);
    assert_eq!(totals.lines, 0);
}
