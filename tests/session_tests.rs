use std::collections::HashMap;

use rax_memory::session::{contains_str, SessionConfig, SessionError, SessionMode, SessionStageReport, SessionState};

fn remember(s: &mut SessionState, text: &str) -> Result<(), SessionError> {
    s.check_remember()?;
    let _ts = s.next_session_timestamp();
    s.record_memory(text.to_string());
    Ok(())
}

#[test]
fn session_tracks_and_stages_memories() {
    let mut s = SessionState::new(SessionMode::ReadWrite, SessionConfig::default(), 1_000);
    remember(&mut s, "alpha memory").unwrap();
    remember(&mut s, "beta").unwrap();
    assert_eq!(s.try_recall("memory").unwrap(), vec!["alpha memory".to_string()]);
    let report = s.try_stage(0).unwrap();
    assert_eq!(report.staged_text_entries, 2);
    assert_eq!(s.pending_entries(), 0);
    s.restore_pending(report);
    assert_eq!(s.pending_entries(), 2);
}

#[test]
fn read_only_session_rejects_mutations() {
    let mut s = SessionState::new(SessionMode::ReadOnly, SessionConfig::default(), 0);
    assert_eq!(s.check_remember(), Err(SessionError::ReadOnly));
    assert_eq!(s.check_remember_with_embedding(3), Err(SessionError::ReadOnly));
    assert_eq!(s.try_stage(0), Err(SessionError::ReadOnly));
    assert_eq!(s.try_upsert_entity("x", HashMap::new()), Err(SessionError::ReadOnly));
    assert_eq!(s.try_recall("x"), Ok(vec![]));
}

#[test]
fn disabled_lanes_report_their_errors() {
    let config = SessionConfig {
        enable_text_search: false,
        enable_vector_search: false,
        enable_structured_memory: false,
        vector_dimensions: None,
    };
    let mut s = SessionState::new(SessionMode::ReadWrite, config, 0);
    assert_eq!(s.check_remember(), Err(SessionError::TextSearchDisabled));
    assert_eq!(s.try_recall("q"), Err(SessionError::TextSearchDisabled));
    assert_eq!(s.check_remember_with_embedding(2), Err(SessionError::VectorSearchDisabled));
    assert_eq!(s.check_recall_semantic(2, 1), Err(SessionError::VectorSearchDisabled));
    assert_eq!(s.try_upsert_entity("x", HashMap::new()), Err(SessionError::StructuredMemoryDisabled));
    assert!(s.try_get_entity("x").is_err());
}

#[test]
fn first_embedding_fixes_the_dimension() {
    let mut s = SessionState::new(SessionMode::ReadWrite, SessionConfig::default(), 0);
    assert_eq!(s.check_remember_with_embedding(0), Err(SessionError::EmptyEmbedding));
    assert_eq!(s.check_remember_with_embedding(4), Ok(()));
    assert_eq!(
        s.check_remember_with_embedding(3),
        Err(SessionError::VectorDimensionMismatch { expected: 4, got: 3 })
    );
    assert_eq!(s.check_recall_semantic(4, 2), Ok(true));
    assert_eq!(s.check_recall_semantic(4, 0), Ok(false));
    assert_eq!(
        s.check_recall_semantic(5, 2),
        Err(SessionError::VectorDimensionMismatch { expected: 4, got: 5 })
    );
}

#[test]
fn session_clock_is_monotone_and_saturates() {
    let mut s = SessionState::new(SessionMode::ReadWrite, SessionConfig::default(), u64::MAX - 1);
    assert_eq!(s.next_session_timestamp(), u64::MAX - 1);
    assert_eq!(s.next_session_timestamp(), u64::MAX);
    assert_eq!(s.next_session_timestamp(), u64::MAX);
}

#[test]
fn vector_hits_map_to_texts() {
    let mut s = SessionState::new(SessionMode::ReadWrite, SessionConfig::default(), 0);
    s.record_vector_memory(10, "ten".to_string());
    s.record_vector_memory(11, "eleven".to_string());
    assert_eq!(s.texts_for_hits(&[11, 12, 10]), vec!["eleven".to_string(), "ten".to_string()]);
}

#[test]
fn entities_go_through_the_session() {
    let mut s = SessionState::new(SessionMode::ReadWrite, SessionConfig::default(), 0);
    let mut attrs = HashMap::new();
    attrs.insert("city".to_string(), "seoul".to_string());
    s.try_upsert_entity("User-1", attrs).unwrap();
    let e = s.try_get_entity("user-1").unwrap().unwrap();
    assert_eq!(e.attrs.get("city"), Some(&"seoul".to_string()));
}

#[test]
fn substring_search() {
    assert!(contains_str("alpha memory", "memory"));
    assert!(contains_str("abc", ""));
    assert!(!contains_str("ab", "abc"));
    assert!(!contains_str("beta", "memory"));
    assert_eq!(SessionStageReport::default().staged_text_entries, 0);
}

#[test]
fn streaming_writer_records_largest_chunk() {
    let mut w = rax_memory::io::StreamingWriter::new(0);
    assert_eq!(w.chunk_size(), 1);
    let mut w2 = rax_memory::io::StreamingWriter::new(4096);
    assert_eq!(w2.chunk_size(), 4096);
    w2.record_chunk(100);
    w2.record_chunk(4096);
    w2.record_chunk(7);
    assert_eq!(w2.max_chunk_seen(), 4096);
    w.record_chunk(1);
    assert_eq!(w.max_chunk_seen(), 1);
}
