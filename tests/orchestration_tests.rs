use rax_memory::orchestration::{
    allocate_frame_ids, photo_ingest_report, rewrite_live_set, video_ingest_report, SurrogateMaintenance,
    PHOTO_PIPELINE_VERSION, VIDEO_PIPELINE_VERSION,
};

#[test]
fn rewrite_preserves_logical_live_set() {
    let logical = vec![1, 2, 3, 4];
    let superseded = vec![2, 4];

    let (rewritten, report) = rewrite_live_set(&logical, &superseded);
    assert_eq!(rewritten, vec![1, 3]);
    assert_eq!(report.before_count, 4);
    assert_eq!(report.after_count, 2);
}

#[test]
fn rewrite_sorts_and_keeps_duplicates() {
    let (rewritten, report) = rewrite_live_set(&[9, 3, 7, 3, 5], &[7, 100]);
    assert_eq!(rewritten, vec![3, 3, 5, 9]);
    assert_eq!(report.before_count, 5);
    assert_eq!(report.after_count, 4);
    let (empty, report) = rewrite_live_set(&[], &[1]);
    assert!(empty.is_empty());
    assert_eq!(report.after_count, 0);
}

#[test]
fn surrogate_maintenance_rebuild_clears_stale_entries() {
    let mut m = SurrogateMaintenance::default();
    m.mark_stale(10);
    m.mark_stale(11);
    assert_eq!(m.rebuild(), 2);
    assert_eq!(m.rebuild(), 0);
}

#[test]
fn marking_twice_counts_once() {
    let mut m = SurrogateMaintenance::default();
    m.mark_stale(4);
    m.mark_stale(4);
    assert_eq!(m.rebuild(), 1);
}

#[test]
fn photo_ingest_sets_pipeline_version() {
    let mut next = 1u64;
    let report = photo_ingest_report(allocate_frame_ids(&mut next, 1));
    assert_eq!(report.pipeline_version, PHOTO_PIPELINE_VERSION);
    assert_eq!(report.embeddings_generated, 1);
}

#[test]
fn video_ingest_creates_segment_frames_and_embeddings() {
    let mut next = 1u64;
    let report = video_ingest_report(allocate_frame_ids(&mut next, 2));
    assert_eq!(report.frame_ids.len(), 2);
    assert_eq!(report.embeddings_generated, 2);
    assert_eq!(report.pipeline_version, VIDEO_PIPELINE_VERSION);
}

#[test]
fn frame_ids_continue_across_batches() {
    let mut next = 1u64;
    assert_eq!(allocate_frame_ids(&mut next, 2), vec![1, 2]);
    assert_eq!(allocate_frame_ids(&mut next, 3), vec![3, 4, 5]);
    assert_eq!(next, 6);
    assert!(allocate_frame_ids(&mut next, 0).is_empty());
}
