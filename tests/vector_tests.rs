use rax_memory::textsearch::fts5_runtime_available;
use rax_memory::vector::{
    accept_dimension, expanded_k, first_ask, next_ask, search_dimension_ok, EmbedVecConfig, HnswRsConfig, USearchConfig,
    VectorBackend, VectorSearchConfig,
};

#[test]
fn first_non_empty_vector_fixes_dimension() {
    let mut dims = None;
    assert!(!accept_dimension(&mut dims, 0));
    assert_eq!(dims, None);
    assert!(accept_dimension(&mut dims, 2));
    assert_eq!(dims, Some(2));
    assert!(!accept_dimension(&mut dims, 3));
    assert_eq!(dims, Some(2));
    assert!(accept_dimension(&mut dims, 2));
    assert!(search_dimension_ok(dims, 2));
    assert!(!search_dimension_ok(dims, 3));
    assert!(!search_dimension_ok(None, 2));
}

#[test]
fn oversampling_doubles_until_the_population() {
    assert_eq!(first_ask(5, 3), 3);
    assert_eq!(first_ask(2, 10), 2);
    assert_eq!(next_ask(2, 10), Some(4));
    assert_eq!(next_ask(4, 10), Some(8));
    assert_eq!(next_ask(8, 10), Some(10));
    assert_eq!(next_ask(10, 10), None);
    assert_eq!(next_ask(usize::MAX / 2 + 1, usize::MAX), Some(usize::MAX));
}

#[test]
fn expanded_k_multiplies_and_clamps() {
    assert_eq!(expanded_k(10, 4, 1000), 40);
    assert_eq!(expanded_k(10, 0, 1000), 10);
    assert_eq!(expanded_k(10, 4, 25), 25);
    assert_eq!(expanded_k(0, 4, 25), 1);
    assert_eq!(expanded_k(usize::MAX, 2, 7), 7);
}

#[test]
fn lexical_engine_is_available() {
    assert!(fts5_runtime_available());
}

#[test]
fn backend_configs_have_documented_defaults() {
    let u = USearchConfig::default();
    assert_eq!((u.connectivity, u.expansion_add, u.expansion_search), (16, 200, 80));
    let h = HnswRsConfig::default();
    assert_eq!(h.max_nb_connection, 16);
    assert_eq!(h.max_elements_hint, 1_000_000);
    assert_eq!(h.search_oversampling, 8);
    let e = EmbedVecConfig::default();
    assert_eq!((e.m, e.ef_construction, e.search_oversampling), (16, 200, 8));
    assert_eq!(VectorSearchConfig::default().backend, VectorBackend::USearch);
}
