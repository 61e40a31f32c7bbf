use std::time::{Duration, Instant};

use rax_memory::rag::{build_context, classify_query, count_tokens, select_tier, ContextChunk, QueryMode, SurrogateTier};

#[test]
fn classifies_query_mode_for_adaptive_fusion() {
    assert_eq!(classify_query("city:seoul"), QueryMode::Constraint);
    assert_eq!(
        classify_query("what happened yesterday"),
        QueryMode::Semantic
    );
}

#[test]
fn equals_sign_makes_a_constraint_query() {
    assert_eq!(classify_query("team=core"), QueryMode::Constraint);
    assert_eq!(classify_query(""), QueryMode::Semantic);
}

#[test]
fn same_inputs_produce_identical_context_order() {
    let chunks = vec![
        ContextChunk {
            id: 2,
            text: "b b b".to_string(),
            importance: 7,
        },
        ContextChunk {
            id: 1,
            text: "a a".to_string(),
            importance: 7,
        },
        ContextChunk {
            id: 3,
            text: "c".to_string(),
            importance: 5,
        },
    ];

    let left = build_context(chunks.clone(), 100);
    let right = build_context(chunks, 100);

    assert_eq!(left, right);
    assert_eq!(left.iter().map(|c| c.id).collect::<Vec<_>>(), vec![1, 2, 3]);
}

#[test]
fn build_context_respects_token_budget() {
    let chunks = vec![
        ContextChunk {
            id: 1,
            text: "alpha beta".to_string(),
            importance: 10,
        },
        ContextChunk {
            id: 2,
            text: "gamma delta epsilon".to_string(),
            importance: 9,
        },
    ];

    let ctx = build_context(chunks, 2);
    assert_eq!(ctx.len(), 1);
    assert_eq!(ctx[0].id, 1);
}

#[test]
fn build_context_skips_oversized_but_keeps_going() {
    let chunk = |id: u64, text: &str, importance: i32| ContextChunk { id, text: text.to_string(), importance };
    let ctx = build_context(vec![chunk(1, "a b c d", 9), chunk(2, "e", 8), chunk(3, "f g", 7), chunk(4, "h", 1)], 3);
    assert_eq!(ctx.iter().map(|c| c.id).collect::<Vec<_>>(), vec![2, 3]);
    assert!(build_context(vec![], 10).is_empty());
}

#[test]
fn tokens_are_white_space_separated_words() {
    assert_eq!(count_tokens(""), 0);
    assert_eq!(count_tokens("   "), 0);
    assert_eq!(count_tokens(" alpha  beta\tgamma\n"), 3);
    assert_eq!(count_tokens("one\u{3000}two"), 2);
}

#[test]
fn tiers_by_token_count() {
    assert_eq!(select_tier(0), SurrogateTier::Tiny);
    assert_eq!(select_tier(16), SurrogateTier::Tiny);
    assert_eq!(select_tier(17), SurrogateTier::Short);
    assert_eq!(select_tier(64), SurrogateTier::Short);
    assert_eq!(select_tier(65), SurrogateTier::Long);
}

fn synthetic_docs(n: usize) -> Vec<String> {
    (0..n)
        .map(|i| {
            format!(
                "Document {i} about Rust memory systems, retrieval, vector search, and backup replay."
            )
        })
        .collect()
}

#[test]
fn test_tokenizer_throughput() {
    let text = synthetic_docs(2_000).join(" ");
    let start = Instant::now();
    let tokens = count_tokens(&text);
    let elapsed = start.elapsed();
    assert!(tokens > 1_000);
    assert!(elapsed < Duration::from_millis(800));
    assert!(tokens as f64 / elapsed.as_secs_f64().max(1e-9) >= 75_000.0);
}
