use std::collections::HashMap;

use rax_memory::textsearch::TextSearchEngine;

#[test]
fn bm25_query_returns_ranked_hits() {
    let mut engine = TextSearchEngine::new();

    let mut m1 = HashMap::new();
    m1.insert("kind".to_string(), "note".to_string());
    engine.ingest("a", "memory memory engine", m1);

    let mut m2 = HashMap::new();
    m2.insert("kind".to_string(), "note".to_string());
    engine.ingest("b", "memory", m2);

    let hits = engine.query("memory", None, 10);
    assert_eq!(hits.len(), 2);
    assert_eq!(hits[0].id, "a");
    assert!(hits[0].score > hits[1].score);
    assert!(hits[0].snippet.is_some());
}

fn meta(kind: &str) -> HashMap<String, String> {
    let mut m = HashMap::new();
    m.insert("kind".to_string(), kind.to_string());
    m
}

#[test]
fn scores_count_non_overlapping_case_insensitive_matches() {
    let mut engine = TextSearchEngine::new();
    engine.ingest("x", "AAAA aa", meta("note"));
    let hits = engine.query("Aa", None, 10);
    assert_eq!(hits.len(), 1);
    assert_eq!(hits[0].score, 3);
    assert_eq!(hits[0].snippet.as_deref(), Some("AAAA aa"));
}

#[test]
fn filter_limit_and_tie_break_by_id() {
    let mut engine = TextSearchEngine::new();
    engine.ingest("c", "rust memory", meta("note"));
    engine.ingest("a", "rust", meta("note"));
    engine.ingest("b", "rust", meta("task"));
    engine.ingest("d", "nothing here", meta("note"));
    let all = engine.query("RUST memory", None, 10);
    let ids: Vec<&str> = all.iter().map(|h| h.id.as_str()).collect();
    assert_eq!(ids, vec!["c", "a", "b"]);
    assert_eq!(all[0].score, 2);
    let notes = engine.query("rust", Some(("kind", "note")), 10);
    let ids: Vec<&str> = notes.iter().map(|h| h.id.as_str()).collect();
    assert_eq!(ids, vec!["a", "c"]);
    assert_eq!(engine.query("rust", None, 1).len(), 1);
    assert!(engine.query("rust", Some(("kind", "none")), 10).is_empty());
    assert!(engine.query("   ", None, 10).is_empty());
}

#[test]
fn snippet_is_a_window_around_the_first_matching_term() {
    let mut engine = TextSearchEngine::new();
    let body = "0123456789012345678901234567890123456789 needle and the rest of the text";
    engine.ingest("s", body, HashMap::new());
    let hits = engine.query("missing needle", None, 5);
    assert_eq!(hits.len(), 1);
    let at = body.find("needle").unwrap();
    assert_eq!(hits[0].snippet.as_deref(), Some(&body[at - 24..at + 24]));
}
