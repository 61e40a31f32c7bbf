use std::collections::HashMap;

use rax_memory::structured::{canonicalize, StructuredMemory, StructuredMemoryRecord};

#[test]
fn structured_memory_crud_round_trip() {
    let mut mem = StructuredMemory::new();
    let mut attrs = HashMap::new();
    attrs.insert("city".to_string(), "seoul".to_string());

    mem.upsert("User-1", attrs);
    assert_eq!(mem.get("user-1").unwrap().attrs.get("city"), Some(&"seoul".to_string()));

    mem.delete("USER-1");
    assert!(mem.get("user-1").is_none());
}

#[test]
fn structured_memory_record_matches_attribute_filter() {
    let mut attrs = HashMap::new();
    attrs.insert("city".to_string(), "seoul".to_string());
    let rec = StructuredMemoryRecord {
        id: "1".to_string(),
        entity_type: "profile".to_string(),
        attributes: attrs,
    };

    assert!(rec.matches("city", "seoul"));
    assert!(!rec.matches("city", "busan"));
}

#[test]
fn canonicalize_trims_and_lowercases() {
    assert_eq!(canonicalize("  User-1\t"), "user-1");
    assert_eq!(canonicalize("ÄBC"), "Äbc");
    assert_eq!(canonicalize("\u{3000}x\u{a0}"), "x");
    assert_eq!(canonicalize(""), "");
}

#[test]
fn get_agrees_with_canonical_spelling() {
    let mut mem = StructuredMemory::new();
    let mut attrs = HashMap::new();
    attrs.insert("team".to_string(), "core".to_string());
    mem.upsert(" Entity-1 ", attrs);
    for x in ["entity-1", "ENTITY-1", "  Entity-1", "missing"] {
        let direct = mem.get(x).map(|e| e.id.clone());
        let canon = mem.get(&canonicalize(x)).map(|e| e.id.clone());
        assert_eq!(direct, canon);
    }
    assert_eq!(mem.get("ENTITY-1").unwrap().id, "entity-1");
}

#[test]
fn upsert_replaces_existing_entity() {
    let mut mem = StructuredMemory::new();
    let mut a = HashMap::new();
    a.insert("k".to_string(), "1".to_string());
    mem.upsert("A", a);
    let mut b = HashMap::new();
    b.insert("k".to_string(), "2".to_string());
    mem.upsert("a", b);
    assert_eq!(mem.get("A").unwrap().attrs.get("k"), Some(&"2".to_string()));
    mem.delete("b");
    assert!(mem.get("a").is_some());
}

#[test]
fn record_without_attribute_does_not_match() {
    let rec = StructuredMemoryRecord {
        id: "2".to_string(),
        entity_type: "profile".to_string(),
        attributes: HashMap::new(),
    };
    assert!(!rec.matches("city", ""));
}
