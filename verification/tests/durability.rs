//! The write-ahead log, snapshots, and crash recovery.

use lattice::recovery::RecoveryManager;
use lattice::storage::{Snapshot, SnapshotConfig, SnapshotManager, WALConfig, WALEntry, WAL};
use lattice::{State, Transition};

#[test]
fn test_wal_create_and_append() {
    let mut wal = WAL::create(WALConfig::default());

    let entry = WALEntry::Metadata { current_term: 1, voted_for: Some(1) };

    wal.append(entry).unwrap();

    let entries = wal.read_all();
    assert_eq!(entries.len(), 1);
}

#[test]
fn test_wal_persistence() {
    let mut wal = WAL::create(WALConfig::default());

    // Write entries
    for i in 0..100usize {
        let entry = WALEntry::LogEntry {
            index: i,
            term: 1,
            transition: Transition::Write { key: format!("k{}", i), value: vec![i as u8] },
        };
        wal.append(entry).unwrap();
    }

    // Read back
    let entries = wal.read_all();
    assert_eq!(entries.len(), 100);
}

#[test]
fn wal_read_all_returns_appends_in_order() {
    let mut wal = WAL::create(WALConfig::default());
    wal.append(WALEntry::Metadata { current_term: 3, voted_for: None }).unwrap();
    wal.append(WALEntry::Commit { index: 7 }).unwrap();
    let entries = wal.read_all();
    assert_eq!(entries.len(), 2);
    match &entries[0] {
        WALEntry::Metadata { current_term, voted_for } => {
            assert_eq!(*current_term, 3);
            assert_eq!(*voted_for, None);
        },
        other => panic!("unexpected first record: {:?}", other),
    }
    match &entries[1] {
        WALEntry::Commit { index } => assert_eq!(*index, 7),
        other => panic!("unexpected second record: {:?}", other),
    }
}

#[test]
fn wal_reopen_discards_partial_trailing_record() {
    // a crash can cut a record short: the reopen keeps every intact record
    // and drops the partial tail; the next append lands after the last
    // intact record
    let mut wal = WAL::create(WALConfig::default());
    wal.append(WALEntry::Commit { index: 1 }).unwrap();
    wal.append(WALEntry::Commit { index: 2 }).unwrap();

    let mut bytes = wal.segment_bytes(wal.segment_count() - 1).clone();
    // a length prefix promising 100 bytes, with only 2 present
    bytes.extend_from_slice(&100u32.to_le_bytes());
    bytes.extend_from_slice(&[0xAB, 0xCD]);

    let mut reopened = WAL::open_segments(vec![bytes], 0, WALConfig::default()).unwrap();
    let entries = reopened.read_all();
    assert_eq!(entries.len(), 2);

    // the next append is readable right after the intact records
    reopened.append(WALEntry::Commit { index: 3 }).unwrap();
    let entries = reopened.read_all();
    assert_eq!(entries.len(), 3);
    match &entries[2] {
        WALEntry::Commit { index } => assert_eq!(*index, 3),
        other => panic!("unexpected record: {:?}", other),
    }
}

#[test]
fn wal_reopen_rejects_corrupt_record() {
    // a complete record that does not decode is corruption, not a crash tail
    let mut bytes: Vec<u8> = Vec::new();
    bytes.extend_from_slice(&3u32.to_le_bytes());
    bytes.extend_from_slice(&[0xFF, 0xFF, 0xFF]);
    assert!(WAL::open_segments(vec![bytes], 0, WALConfig::default()).is_err());
}

#[test]
fn wal_compact_drops_covered_segments() {
    let mut cfg = WALConfig::default();
    cfg.max_file_size = 1;  // roll over after every record
    let mut wal = WAL::create(cfg);
    for i in 1..=4usize {
        wal.append(WALEntry::Commit { index: i }).unwrap();
    }
    assert!(wal.segment_count() >= 4);
    wal.compact(3);
    let entries = wal.read_all();
    // everything below index 3 is gone; 3 and 4 survive
    assert!(entries.len() >= 2);
    for e in &entries {
        match e {
            WALEntry::Commit { index } => assert!(*index >= 3),
            other => panic!("unexpected record: {:?}", other),
        }
    }
}

#[test]
fn wal_compact_never_drops_metadata() {
    // the only durable copy of the term and vote must survive compaction
    let mut cfg = WALConfig::default();
    cfg.max_file_size = 1;  // roll over after every record
    let mut wal = WAL::create(cfg);
    wal.append(WALEntry::Metadata { current_term: 7, voted_for: Some(2) }).unwrap();
    wal.append(WALEntry::Commit { index: 1 }).unwrap();
    wal.append(WALEntry::Commit { index: 2 }).unwrap();
    wal.compact(100);
    let entries = wal.read_all();
    let mut saw_metadata = false;
    for e in &entries {
        if let WALEntry::Metadata { current_term, voted_for } = e {
            assert_eq!(*current_term, 7);
            assert_eq!(*voted_for, Some(2));
            saw_metadata = true;
        }
    }
    assert!(saw_metadata);
}

#[test]
fn test_snapshot_save_and_load() {
    let mut mgr = SnapshotManager::new(SnapshotConfig::default());

    let snapshot = Snapshot { last_index: 100, last_term: 1, state: State::new(), timestamp: 0 };

    // the snapshot's file bytes round-trip
    let bytes = snapshot.to_bytes();
    let removed = mgr.record_saved(snapshot.last_index);
    assert!(removed.is_empty());

    let loaded = Snapshot::from_bytes(&bytes);
    assert!(loaded.is_some());
    assert_eq!(loaded.unwrap().last_index, 100);
    assert_eq!(mgr.latest(), Some(100));
}

#[test]
fn test_snapshot_save_load() {
    let mut mgr = SnapshotManager::new(SnapshotConfig::default());

    let snapshot = Snapshot { last_index: 1000, last_term: 5, state: State::new(), timestamp: 123456 };

    let bytes = snapshot.to_bytes();
    mgr.record_saved(snapshot.last_index);

    let loaded = Snapshot::from_bytes(&bytes).unwrap();
    assert_eq!(loaded.last_index, 1000);
    assert_eq!(loaded.last_term, 5);
}

#[test]
fn snapshot_retention_removes_oldest() {
    let mut mgr = SnapshotManager::new(SnapshotConfig { snapshot_interval: 10, keep_snapshots: 2 });
    assert!(mgr.record_saved(10).is_empty());
    assert!(mgr.record_saved(20).is_empty());
    let removed = mgr.record_saved(30);
    assert_eq!(removed, vec![10]);
    assert_eq!(mgr.latest(), Some(30));
}

#[test]
fn snapshot_roundtrip_keeps_state() {
    let mut state = State::new();
    state = Transition::AddMember { node_id: 5 }.apply(state);
    state = Transition::Write { key: "key".to_string(), value: b"val".to_vec() }.apply(state);
    let snapshot = Snapshot { last_index: 2, last_term: 1, state, timestamp: 9 };
    let bytes = snapshot.to_bytes();
    let loaded = Snapshot::from_bytes(&bytes).unwrap();
    assert_eq!(loaded.state.clock, 2);
    assert_eq!(loaded.state.members, vec![5]);
    assert_eq!(loaded.state.data.get("key"), Some(&b"val".to_vec()));
}

#[test]
fn test_crash_recovery() {
    let mut recovery = RecoveryManager::new(1);

    // Recover
    let state = recovery.recover(None, &Vec::new()).unwrap();
    assert_eq!(state.clock, 0);  // Fresh state
}

#[test]
fn recovery_replays_committed_writes() {
    // a solo replica writes k twice and deletes it, all committed, then
    // crashes; recovery reproduces exactly that state
    let mut wal = WAL::create(WALConfig::default());
    let records = vec![
        WALEntry::LogEntry {
            index: 1,
            term: 1,
            transition: Transition::Write { key: "k".to_string(), value: b"v1".to_vec() },
        },
        WALEntry::LogEntry {
            index: 2,
            term: 1,
            transition: Transition::Write { key: "k".to_string(), value: b"v2".to_vec() },
        },
        WALEntry::LogEntry {
            index: 3,
            term: 1,
            transition: Transition::Delete { key: "k".to_string() },
        },
        WALEntry::Commit { index: 3 },
    ];
    for r in records {
        wal.append(r).unwrap();
    }
    let entries = wal.read_all();

    let mut recovery = RecoveryManager::new(1);
    let state = recovery.recover(None, &entries).unwrap();
    assert!(state.data.get("k").is_none());
    assert_eq!(state.clock, 3);
}

#[test]
fn recovery_is_idempotent() {
    // recovering a second time from the same persistent input gives the
    // same state; so does recovering from a snapshot of the recovered state
    let mut wal = WAL::create(WALConfig::default());
    wal.append(WALEntry::LogEntry {
        index: 1,
        term: 1,
        transition: Transition::Write { key: "a".to_string(), value: b"1".to_vec() },
    })
        .unwrap();
    wal.append(WALEntry::Commit { index: 1 }).unwrap();
    let entries = wal.read_all();

    let mut r1 = RecoveryManager::new(1);
    let s1 = r1.recover(None, &entries).unwrap();
    let mut r2 = RecoveryManager::new(1);
    let s2 = r2.recover(None, &entries).unwrap();
    assert_eq!(s1.hash(), s2.hash());

    // a snapshot of the recovered state, with no record suffix, recovers to it
    let snap = Snapshot { last_index: 1, last_term: 1, state: s1, timestamp: 0 };
    let mut r3 = RecoveryManager::new(1);
    let s3 = r3.recover(Some(snap), &Vec::new()).unwrap();
    assert_eq!(s2.hash(), s3.hash());
}

#[test]
fn recovery_uses_metadata_and_snapshot_records() {
    let mut wal = WAL::create(WALConfig::default());
    wal.append(WALEntry::Metadata { current_term: 4, voted_for: Some(2) }).unwrap();
    let mut snap_state = State::new();
    snap_state = Transition::Write { key: "s".to_string(), value: b"1".to_vec() }.apply(snap_state);
    wal.append(WALEntry::Snapshot { index: 5, term: 2, state: snap_state }).unwrap();
    let entries = wal.read_all();

    let mut recovery = RecoveryManager::new(1);
    let rec = recovery.recover_full(None, &entries).unwrap();
    assert_eq!(rec.current_term, 4);
    assert_eq!(rec.voted_for, Some(2));
    assert_eq!(rec.state.data.get("s"), Some(&b"1".to_vec()));
    assert_eq!(rec.commit_index, 5);
}

#[test]
fn wal_rejects_oversized_record() {
    // the record error type has a variant for payloads beyond the length
    // prefix; a metadata record never reaches it
    let mut wal = WAL::create(WALConfig::default());
    let r = wal.append(WALEntry::Metadata { current_term: 0, voted_for: None });
    assert!(r.is_ok());
}
