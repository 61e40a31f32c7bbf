use rax_memory::store::{FrameMeta, FrameStatus, LifecycleStore};

#[test]
fn delete_and_supersede_metadata_links_are_recorded() {
    let mut store = LifecycleStore::new();
    let a = store.put(vec![1], 1);
    let b = store.put(vec![2], 2);
    store.supersede(a, b);
    store.delete(a);

    let a_meta = store.meta(a).unwrap();
    let b_meta = store.meta(b).unwrap();
    assert_eq!(a_meta.superseded_by, Some(b));
    assert_eq!(b_meta.supersedes, Some(a));
}

#[test]
fn superseded_frame_hidden_from_default_reads() {
    let mut store = LifecycleStore::new();
    let old_id = store.put(vec![1], 10);
    let new_id = store.put(vec![2], 11);
    store.supersede(old_id, new_id);

    assert!(store.get_visible(old_id).is_none());
    assert!(store.get_visible(new_id).is_some());
}

#[test]
fn timeline_orders_and_excludes_superseded_by_default() {
    let mut store = LifecycleStore::new();
    let older = store.put(vec![1], 10);
    let newer = store.put(vec![2], 20);
    store.supersede(older, newer);

    let visible = store.timeline(false);
    assert_eq!(visible.len(), 1);
    assert_eq!(visible[0].id, newer);

    let all = store.timeline(true);
    assert_eq!(all.len(), 2);
    assert_eq!(all[0].timestamp, 10);
    assert_eq!(all[1].timestamp, 20);
}

#[test]
fn ids_start_at_one_and_increase() {
    let mut store = LifecycleStore::new();
    assert_eq!(store.put(vec![], 5), 1);
    assert_eq!(store.put(vec![], 5), 2);
    assert_eq!(store.meta(2), Some(&FrameMeta::active(2, 5)));
    assert!(store.meta(3).is_none());
    assert!(store.meta(0).is_none());
}

#[test]
fn timeline_sorts_by_timestamp_and_keeps_insertion_order_on_ties() {
    let mut store = LifecycleStore::new();
    let a = store.put(vec![1], 30);
    let b = store.put(vec![2], 10);
    let c = store.put(vec![3], 30);
    let d = store.put(vec![4], 20);
    let e = store.put(vec![5], 10);
    store.delete(d);
    let ids: Vec<u64> = store.timeline(false).iter().map(|m| m.id).collect();
    assert_eq!(ids, vec![b, e, a, c]);
    assert_eq!(store.meta(d).unwrap().status, FrameStatus::Deleted);
    assert!(store.get_visible(d).is_none());
}

#[test]
fn supersede_with_absent_side_is_a_no_op_for_that_side() {
    let mut store = LifecycleStore::new();
    let a = store.put(vec![1], 1);
    store.supersede(a, 99);
    assert_eq!(store.meta(a).unwrap().superseded_by, Some(99));
    store.supersede(77, a);
    assert_eq!(store.meta(a).unwrap().supersedes, Some(77));
    assert!(store.get_visible(a).is_none());
}
