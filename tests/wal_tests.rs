use rax_memory::codec::BinaryDecodeError;
use rax_memory::wal::{replay_pending_puts, WALEntry, WALRing};

#[test]
fn wal_compaction_removes_committed_records() {
    let mut ring = WALRing::new(16);
    ring.append(WALEntry::PutFrame {
        frame_id: 1,
        payload: vec![1],
    });
    ring.append(WALEntry::PutFrame {
        frame_id: 2,
        payload: vec![2],
    });
    ring.append(WALEntry::DeleteFrame { frame_id: 1 });

    let removed = ring.compact(2);
    assert_eq!(removed, 2);
    assert_eq!(ring.records().len(), 1);
    assert_eq!(ring.records()[0].sequence, 3);
}

#[test]
fn wal_entry_round_trip_codec() {
    let entry = WALEntry::PutFrame {
        frame_id: 7,
        payload: vec![1, 2, 3],
    };

    let encoded = entry.encode();
    let decoded = WALEntry::decode(&encoded).unwrap();
    assert_eq!(decoded, entry);
}

#[test]
fn wal_replay_recovers_pending_put() {
    let mut ring = WALRing::new(16);
    ring.append(WALEntry::PutFrame {
        frame_id: 10,
        payload: vec![9],
    });
    ring.append(WALEntry::PutFrame {
        frame_id: 11,
        payload: vec![8],
    });

    let pending = replay_pending_puts(ring.records(), 1);
    assert_eq!(pending.get(&11), Some(&vec![8]));
}

#[test]
fn wal_ring_appends_and_reads_in_order() {
    let mut ring = WALRing::new(2);
    ring.append(WALEntry::PutFrame {
        frame_id: 1,
        payload: vec![1],
    });
    ring.append(WALEntry::PutFrame {
        frame_id: 2,
        payload: vec![2],
    });
    ring.append(WALEntry::DeleteFrame { frame_id: 1 });

    let records = ring.records();
    assert_eq!(records.len(), 2);
    assert_eq!(records[0].sequence, 2);
    assert_eq!(records[1].sequence, 3);
}

#[test]
fn wal_entry_wire_form_is_exact() {
    let put = WALEntry::PutFrame { frame_id: 5, payload: vec![0xaa] };
    assert_eq!(put.encode(), vec![1, 5, 0, 0, 0, 0, 0, 0, 0, 1, 0, 0, 0, 0xaa]);
    let del = WALEntry::DeleteFrame { frame_id: 0x0102 };
    assert_eq!(del.encode(), vec![2, 2, 1, 0, 0, 0, 0, 0, 0]);
    assert_eq!(WALEntry::decode(&del.encode()), Ok(del));
}

#[test]
fn wal_entry_decode_errors() {
    assert_eq!(WALEntry::decode(&[]), Err(BinaryDecodeError::UnexpectedEof));
    assert_eq!(WALEntry::decode(&[3, 0, 0, 0, 0, 0, 0, 0, 0]), Err(BinaryDecodeError::UnexpectedEof));
    assert_eq!(WALEntry::decode(&[1, 0, 0, 0, 0, 0, 0, 0, 0, 4, 0, 0, 0, 1]), Err(BinaryDecodeError::UnexpectedEof));
}

#[test]
fn wal_sequences_strictly_increase_across_eviction() {
    let mut ring = WALRing::new(0);
    let mut last = 0;
    for i in 0..10u64 {
        let s = ring.append(WALEntry::DeleteFrame { frame_id: i });
        assert!(s > last);
        last = s;
    }
    assert_eq!(last, 10);
    assert_eq!(ring.records().len(), 1);
    assert_eq!(ring.records()[0].sequence, 10);
}

#[test]
fn wal_replay_applies_later_records_in_order() {
    let mut ring = WALRing::new(16);
    ring.append(WALEntry::PutFrame { frame_id: 1, payload: vec![1] });
    ring.append(WALEntry::PutFrame { frame_id: 2, payload: vec![2] });
    ring.append(WALEntry::PutFrame { frame_id: 1, payload: vec![3] });
    ring.append(WALEntry::DeleteFrame { frame_id: 2 });
    ring.append(WALEntry::PutFrame { frame_id: 4, payload: vec![4] });
    let all = replay_pending_puts(ring.records(), 0);
    assert_eq!(all.len(), 2);
    assert_eq!(all.get(&1), Some(&vec![3]));
    assert_eq!(all.get(&4), Some(&vec![4]));
    let late = replay_pending_puts(ring.records(), 3);
    assert_eq!(late.len(), 1);
    assert_eq!(late.get(&4), Some(&vec![4]));
    assert!(replay_pending_puts(ring.records(), 5).is_empty());
}

#[test]
fn wal_compact_nothing_and_everything() {
    let mut ring = WALRing::new(4);
    ring.append(WALEntry::DeleteFrame { frame_id: 1 });
    ring.append(WALEntry::DeleteFrame { frame_id: 2 });
    assert_eq!(ring.compact(0), 0);
    assert_eq!(ring.records().len(), 2);
    assert_eq!(ring.compact(100), 2);
    assert!(ring.records().is_empty());
    assert_eq!(ring.append(WALEntry::DeleteFrame { frame_id: 3 }), 3);
}
