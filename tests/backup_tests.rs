use rax_memory::backup::{
    full_manifest, incremental_manifest, interrupted_chain_detected, restore_full, restore_incremental, restore_pitr,
    verify_chain,
};

#[test]
fn interrupted_incremental_backup_is_detected_and_recoverable() {
    let base = full_manifest("snap-1", 1, vec!["seg-a".to_string()]);
    let broken = incremental_manifest("wrong-base", "snap-2", 2, 11, 20, vec!["seg-b".to_string()]);

    assert!(interrupted_chain_detected(&[base.clone(), broken]));

    let repaired = incremental_manifest("snap-1", "snap-2", 2, 11, 20, vec!["seg-b".to_string()]);
    assert!(!interrupted_chain_detected(&[base, repaired]));
}

#[test]
fn incremental_backup_contains_only_changed_segments_and_wal_range() {
    let base = full_manifest("snap-1", 1, vec!["seg-a".to_string(), "seg-b".to_string()]);
    let inc = incremental_manifest("snap-1", "snap-2", 2, 100, 130, vec!["seg-b".to_string()]);

    assert_eq!(inc.changed_segments, vec!["seg-b".to_string()]);
    assert_eq!(inc.wal_start_seq, 100);
    assert_eq!(inc.wal_end_seq, 130);
    assert!(verify_chain(&[base, inc]));
}

#[test]
fn full_restore_uses_base_manifest() {
    let base = full_manifest("snap-1", 1, vec!["seg-a".to_string()]);
    let state = restore_full(&base);
    assert_eq!(state.applied_snapshots, vec!["snap-1".to_string()]);
}

#[test]
fn incremental_restore_applies_ordered_chain() {
    let base = full_manifest("snap-1", 1, vec!["seg-a".to_string()]);
    let inc = incremental_manifest("snap-1", "snap-2", 2, 10, 20, vec!["seg-b".to_string()]);
    let state = restore_incremental(&[base, inc]).unwrap();
    assert_eq!(state.applied_snapshots, vec!["snap-1".to_string(), "snap-2".to_string()]);
}

#[test]
fn restore_pitr_stops_at_target_timestamp_and_produces_expected_state() {
    let mut base = full_manifest("snap-1", 1, vec!["seg-a".to_string()]);
    base.wal_end_seq = 100;
    let inc = incremental_manifest("snap-1", "snap-2", 2, 101, 150, vec!["seg-b".to_string()]);

    let chosen = restore_pitr(&[base, inc], 120).unwrap();
    assert_eq!(chosen, "snap-1".to_string());
}

#[test]
fn pitr_reaches_later_snapshot_at_its_end() {
    let mut base = full_manifest("snap-1", 1, vec![]);
    base.wal_end_seq = 100;
    let inc = incremental_manifest("snap-1", "snap-2", 2, 101, 150, vec![]);
    let chain = [base, inc];
    assert_eq!(restore_pitr(&chain, 150), Some("snap-2".to_string()));
    assert_eq!(restore_pitr(&chain, 99), None);
    let mut last = 0;
    for t in [99u64, 100, 120, 149, 150, 1000] {
        let end = match restore_pitr(&chain, t).as_deref() {
            Some("snap-1") => 100,
            Some("snap-2") => 150,
            _ => 0,
        };
        assert!(end >= last);
        last = end;
    }
}

#[test]
fn pitr_prefers_the_last_of_equal_ends() {
    let a = incremental_manifest("x", "a", 1, 1, 50, vec![]);
    let b = incremental_manifest("a", "b", 2, 1, 50, vec![]);
    assert_eq!(restore_pitr(&[a, b], 60), Some("b".to_string()));
}

#[test]
fn broken_chain_is_rejected_by_restore() {
    let base = full_manifest("snap-1", 1, vec![]);
    let broken = incremental_manifest("wrong-base", "snap-2", 2, 11, 20, vec![]);
    assert!(restore_incremental(&[base.clone(), broken]).is_none());
    let reversed = incremental_manifest("snap-1", "snap-2", 2, 30, 20, vec![]);
    assert!(!verify_chain(&[base.clone(), reversed]));
    assert!(verify_chain(&[]));
    assert_eq!(restore_incremental(&[]).unwrap().applied_snapshots, Vec::<String>::new());
    assert!(verify_chain(&[base]));
}
