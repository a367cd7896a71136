use explorer_core::content::{
    collect_file_matches, escape_literal, find_line_matches, is_binary_file, run_content_search,
    start_content_search, ContentCollector, ContentError, ContentMatcher, ContentSearchResult,
};
use explorer_core::registry::Registry;

#[test]
fn test_is_binary_file() {
    assert!(is_binary_file("test.png"));
    assert!(is_binary_file("test.exe"));
    assert!(!is_binary_file("test.rs"));
    assert!(!is_binary_file("test.txt"));
    assert!(!is_binary_file("test.js"));
}

#[test]
fn test_escape_literal() {
    assert_eq!(escape_literal("a.b"), "a\\.b");
    assert_eq!(escape_literal("x(y)*"), "x\\(y\\)\\*");
    assert_eq!(escape_literal("plain"), "plain");
    assert_eq!(escape_literal(""), "");
}

#[test]
fn test_literal_match_span_is_exact() {
    let m = ContentMatcher::new("TODO", true, false).unwrap();
    let line = "a TODO here\n";
    let found = find_line_matches(&m, line, 3, 50);
    assert_eq!(found.len(), 1);
    let cm = &found[0];
    assert_eq!(cm.line_number, 3);
    assert_eq!(cm.line_content, "a TODO here");
    assert_eq!(cm.match_start, 2);
    assert_eq!(cm.match_end, 6);
    assert!(cm.match_start < cm.match_end);
    assert_eq!(&line.as_bytes()[cm.match_start..cm.match_end], b"TODO");
    assert_eq!(cm.column, 3);
}

#[test]
fn test_literal_matches_do_not_overlap() {
    let m = ContentMatcher::new("ab", true, false).unwrap();
    let found = find_line_matches(&m, "abab ab\n", 1, 50);
    let spans: Vec<(usize, usize)> = found.iter().map(|c| (c.match_start, c.match_end)).collect();
    assert_eq!(spans, vec![(0, 2), (2, 4), (5, 7)]);
}

#[test]
fn test_line_budget_stops_the_scan() {
    let m = ContentMatcher::new("a", true, false).unwrap();
    let found = find_line_matches(&m, "aaaa\n", 1, 2);
    assert_eq!(found.len(), 2);
}

#[test]
fn test_case_insensitive_literal_search() {
    let m = ContentMatcher::new("TODO", false, false).unwrap();
    let found = find_line_matches(&m, "a todo and a TODO\n", 1, 50);
    assert_eq!(found.len(), 2);
}

#[test]
fn test_global_budget_stops_mid_file() {
    // Seven occurrences across the file's lines, but a remaining budget of
    // five: the scan stops after the fifth match is counted.
    let m = ContentMatcher::new("TODO", false, false).unwrap();
    let lines: Vec<(u64, String)> = vec![
        (1, "todo one\n".to_string()),
        (2, "TODO two\n".to_string()),
        (3, "todo and TODO again\n".to_string()),
        (4, "last todo pair TODO\n".to_string()),
        (5, "tail todo\n".to_string()),
    ];
    let found = collect_file_matches(&m, lines, 50, 5);
    assert_eq!(found.len(), 5);
}

#[test]
fn test_per_file_ceiling() {
    let m = ContentMatcher::new("x", true, false).unwrap();
    let lines: Vec<(u64, String)> = (1..=60).map(|n| (n, "x\n".to_string())).collect();
    let found = collect_file_matches(&m, lines, 50, 1000);
    assert_eq!(found.len(), 50);
}

fn one_match_result(n: usize) -> ContentSearchResult {
    let m = ContentMatcher::new("x", true, false).unwrap();
    let matches = find_line_matches(&m, "x\n", 1, 50);
    ContentSearchResult {
        path: format!("/root/file_{}.txt", n),
        relative_path: format!("file_{}.txt", n),
        matches,
    }
}

#[test]
fn test_content_batches_are_deltas() {
    let mut col = ContentCollector::new(4, 1000);
    let mut events = Vec::new();
    for i in 0..25 {
        col.note_file_searched();
        if let Some(ev) = col.push_file(one_match_result(i)) {
            events.push(ev);
        }
    }
    // Flushed once per ten accumulated files.
    assert_eq!(events.len(), 2);
    assert!(events.iter().all(|ev| !ev.done && ev.search_id == 4 && ev.results.len() == 10));
    // No file is repeated across batches.
    let mut seen = Vec::new();
    for ev in &events {
        for r in &ev.results {
            assert!(!seen.contains(&r.path));
            seen.push(r.path.clone());
        }
    }
    let terminal = col.finish(false).expect("terminal event");
    assert!(terminal.done);
    assert_eq!(terminal.results.len(), 5);
    assert_eq!(terminal.files_searched, 25);
    assert_eq!(terminal.total_matches, 25);
}

#[test]
fn test_cancelled_content_search_emits_no_done_event() {
    let mut col = ContentCollector::new(5, 1000);
    for i in 0..7 {
        col.note_file_searched();
        let _ = col.push_file(one_match_result(i));
    }
    assert!(col.finish(true).is_none());
}

#[test]
fn test_start_content_search_rejects_empty_query() {
    let mut reg = Registry::new();
    let r = start_content_search(&mut reg, "", "/", false, false, 100);
    assert!(matches!(r, Err(ContentError::EmptyQuery)));
}

#[test]
fn test_start_content_search_rejects_missing_root() {
    let mut reg = Registry::new();
    let r = start_content_search(&mut reg, "x", "/no/such/directory/at/all", false, false, 100);
    assert!(matches!(r, Err(ContentError::NotFound)));
}

#[test]
fn test_start_content_search_rejects_invalid_pattern_synchronously() {
    let mut reg = Registry::new();
    let r = start_content_search(&mut reg, "(unclosed", "/", true, true, 100);
    match r {
        Err(ContentError::InvalidPattern(_)) => {},
        _ => panic!("an invalid raw pattern must fail before any work starts"),
    }
    // No operation identifier was allocated.
    assert!(!reg.contains(1));
}

#[test]
fn test_start_content_search_literal_mode_never_invalid() {
    let mut reg = Registry::new();
    let r = start_content_search(&mut reg, "(unclosed", "/", true, false, 100);
    let (id, _m, _col) = r.expect("a literal query always compiles");
    assert!(reg.contains(id));
}

#[test]
fn test_sync_driver_always_emits_one_terminal_event() {
    let m = ContentMatcher::new("needle", true, false).unwrap();
    let events = run_content_search(&m, "/no/such/directory/at/all", 3, 100);
    assert_eq!(events.len(), 1);
    let ev = &events[0];
    assert!(ev.done);
    assert_eq!(ev.search_id, 3);
    assert!(ev.results.is_empty());
    assert_eq!(ev.total_matches, 0);
}

#[test]
fn test_regex_empty_matches_are_skipped() {
    // A starred pattern matches the empty string at every position; only
    // the non-empty spans are reported, and every span is strict.
    let m = ContentMatcher::new("x*", true, true).unwrap();
    let found = find_line_matches(&m, "axxb\n", 1, 50);
    let spans: Vec<(usize, usize)> = found.iter().map(|c| (c.match_start, c.match_end)).collect();
    assert_eq!(spans, vec![(1, 3)]);
    assert!(found.iter().all(|c| c.match_start < c.match_end));
    let none = find_line_matches(&m, "ab\n", 1, 50);
    assert!(none.is_empty());
}
