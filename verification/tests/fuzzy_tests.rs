use explorer_core::config::{clamp_limit, CONTENT_RESULTS_MAX, NAME_LIMIT_MAX};
use explorer_core::fuzzy::{
    fuzzy_search, rank_candidates, should_skip_dir, Candidate, NameCollector, NameScorer,
    SearchError,
};
use explorer_core::listing::FileKind;

fn cand(name: &str, is_dir: bool) -> Candidate {
    Candidate {
        name: name.to_string(),
        path: format!("/root/{}", name),
        relative_path: name.to_string(),
        is_dir,
    }
}

#[test]
fn test_clamp_limits() {
    assert_eq!(clamp_limit(0, NAME_LIMIT_MAX), 1);
    assert_eq!(clamp_limit(1, NAME_LIMIT_MAX), 1);
    assert_eq!(clamp_limit(50, NAME_LIMIT_MAX), 50);
    assert_eq!(clamp_limit(100, NAME_LIMIT_MAX), 100);
    assert_eq!(clamp_limit(101, NAME_LIMIT_MAX), 100);
    assert_eq!(clamp_limit(usize::MAX, NAME_LIMIT_MAX), 100);
    assert_eq!(clamp_limit(0, CONTENT_RESULTS_MAX), 1);
    assert_eq!(clamp_limit(1001, CONTENT_RESULTS_MAX), 1000);
    assert_eq!(clamp_limit(999, CONTENT_RESULTS_MAX), 999);
}

#[test]
fn test_rank_finds_hello_names_only() {
    let mut scorer = NameScorer::new("hello");
    let cands = vec![
        cand("hello_world.txt", false),
        cand("goodbye.txt", false),
        cand("hello_folder", true),
    ];
    let results = rank_candidates(&mut scorer, cands, 10);
    assert!(!results.is_empty());
    assert!(results.iter().any(|r| r.name == "hello_world.txt"));
    assert!(results.iter().any(|r| r.name == "hello_folder"));
    assert!(results.iter().all(|r| r.name != "goodbye.txt"));
    let folder = results.iter().find(|r| r.name == "hello_folder").unwrap();
    assert!(matches!(folder.kind, FileKind::Directory));
}

#[test]
fn test_rank_results_sorted_non_increasing() {
    let mut scorer = NameScorer::new("app");
    let cands = vec![
        cand("app.rs", false),
        cand("application.rs", false),
        cand("apple_pie.txt", false),
        cand("map.rs", false),
        cand("nothing.txt", false),
    ];
    let results = rank_candidates(&mut scorer, cands, 10);
    assert!(!results.is_empty());
    for w in results.windows(2) {
        assert!(w[0].score >= w[1].score);
    }
}

#[test]
fn test_rank_respects_limit() {
    let mut scorer = NameScorer::new("file");
    let cands: Vec<Candidate> = (0..20).map(|i| cand(&format!("file_{}.txt", i), false)).collect();
    let results = rank_candidates(&mut scorer, cands, 5);
    assert_eq!(results.len(), 5);
}

#[test]
fn test_fuzzy_search_missing_root() {
    let r = fuzzy_search("hello", "/no/such/directory/at/all", 10);
    assert!(matches!(r, Err(SearchError::NotFound)));
}

#[test]
fn test_fuzzy_search_empty_query_rejected() {
    let r = fuzzy_search("", "/no/such/directory/at/all", 10);
    assert!(matches!(r, Err(SearchError::EmptyQuery)));
}

#[test]
fn test_should_skip_dir() {
    assert!(should_skip_dir(".git"));
    assert!(should_skip_dir(".hidden_anything"));
    assert!(should_skip_dir("node_modules"));
    assert!(should_skip_dir("target"));
    assert!(should_skip_dir("__pycache__"));
    assert!(!should_skip_dir("src"));
    assert!(!should_skip_dir("documents"));
}

#[test]
fn test_streaming_collector_batches_and_finishes() {
    let mut col = NameCollector::new(7, "file", 10);
    let mut events = Vec::new();
    for i in 0..250 {
        if let Some(ev) = col.push(cand(&format!("file_{}.txt", i), false)) {
            events.push(ev);
        }
    }
    // Two full batches of one hundred candidates were scored and emitted.
    assert_eq!(events.len(), 2);
    for ev in &events {
        assert!(!ev.done);
        assert_eq!(ev.search_id, 7);
        assert!(ev.results.len() <= 10);
        for w in ev.results.windows(2) {
            assert!(w[0].score >= w[1].score);
        }
    }
    let terminal = col.finish(false);
    let ev = terminal.expect("a completed search emits a terminal event");
    assert!(ev.done);
    assert_eq!(ev.search_id, 7);
    assert_eq!(ev.total_scanned, 250);
}

#[test]
fn test_cancelled_search_emits_no_terminal_event() {
    let mut col = NameCollector::new(9, "file", 10);
    for i in 0..42 {
        let _ = col.push(cand(&format!("file_{}.txt", i), false));
    }
    assert!(col.finish(true).is_none());
}
