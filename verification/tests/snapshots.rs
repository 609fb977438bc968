use xraft::consensus_state::Role;
use xraft::snapshot_coordinator::{RaftState, Snapshot, SnapshotCoordinator};
use xraft::snapshot_store::{ChunkWrite, SnapshotChunk, SnapshotMetadata, SnapshotStore};
use xraft::voter::{VoterInfo, VotersRecord};

fn test_meta() -> SnapshotMetadata {
    SnapshotMetadata {
        term: 3,
        index: 100,
    }
}

#[test]
fn read_chunk_seeks_without_reading_entire_file() {
    let store = SnapshotStore::new(String::from("snaps")).with_chunk_size(4);
    let data = b"hello world!";

    // First chunk: "hell"
    let c0 = store.read_chunk(data, 0);
    assert_eq!(c0.data, b"hell");
    assert!(!c0.done);

    // Second chunk: "o wo"
    let c1 = store.read_chunk(data, 4);
    assert_eq!(c1.data, b"o wo");
    assert!(!c1.done);

    // Third chunk: "rld!"
    let c2 = store.read_chunk(data, 8);
    assert_eq!(c2.data, b"rld!");
    assert!(c2.done);

    // Past-end: empty, done
    let c3 = store.read_chunk(data, 12);
    assert!(c3.data.is_empty());
    assert!(c3.done);
}

#[test]
fn leader_epoch_comes_from_caller_not_current_term() {
    // Simulate a follower whose current_term is 5 creating a
    // snapshot on behalf of a leader in term 3.
    let state = RaftState {
        current_term: 5,
        commit_index: 10,
        role: Role::Follower,
        voters: VotersRecord::default(),
    };

    let coord = SnapshotCoordinator::new("/tmp/test-snap".into());

    // The caller explicitly passes leader_epoch = 3. The log has the entry at
    // the commit index, from term 3.
    let snap = coord.create_snapshot(&state, 3, Some(3), vec![1, 2, 3]);

    assert_eq!(snap.metadata.leader_epoch, 3);
    assert_ne!(snap.metadata.leader_epoch, state.current_term);
}

// The coordinator

#[test]
fn a_snapshot_describes_the_committed_state() {
    let state = RaftState {
        current_term: 5,
        commit_index: 10,
        role: Role::Leader,
        voters: VotersRecord { version: 2, voters: vec![VoterInfo::new(1, "n1")] },
    };
    let coord = SnapshotCoordinator::new("dir".into());
    let snap = coord.create_snapshot(&state, 5, None, vec![9]);
    assert_eq!(snap.metadata.last_included_index, 10);
    assert_eq!(snap.metadata.last_included_term, 5);
    assert_eq!(snap.metadata.voters, state.voters);
    assert_eq!(snap.data, vec![9]);
    assert_eq!(coord.snapshot_path(&snap), "dir/snapshot-10.bin");
    let snap = coord.create_snapshot(&state, 5, Some(4), vec![]);
    assert_eq!(snap.metadata.last_included_term, 4);
}

#[test]
fn the_latest_snapshot_is_the_one_installed_last() {
    let state = RaftState {
        current_term: 1,
        commit_index: 7,
        role: Role::Follower,
        voters: VotersRecord::default(),
    };
    let mut coord = SnapshotCoordinator::new("dir".into());
    assert!(coord.latest_snapshot().is_none());
    assert_eq!(coord.compact_before(), None);
    let snap: Snapshot = coord.create_snapshot(&state, 1, None, vec![1]);
    assert!(coord.latest_snapshot().is_none());
    coord.install_snapshot(snap);
    assert_eq!(coord.latest_snapshot().unwrap().data, vec![1]);
    assert_eq!(coord.compact_before(), Some(7));
}

// The store

#[test]
fn files_are_named_after_term_and_index() {
    let store = SnapshotStore::new(String::from("base"));
    assert_eq!(store.base_dir(), "base");
    assert_eq!(store.snapshot_path(&test_meta()), "3-100.snap");
    assert_eq!(store.meta_path(&test_meta()), "3-100.meta");
    assert_eq!(store.chunk_len(1_000_000, 0), 65536);
}

#[test]
fn chunk_lengths_stop_at_the_end() {
    let store = SnapshotStore::new(String::from("base")).with_chunk_size(10);
    assert_eq!(store.chunk_len(25, 0), 10);
    assert_eq!(store.chunk_len(25, 20), 5);
    assert_eq!(store.chunk_len(25, 25), 0);
    assert_eq!(store.chunk_len(25, 99), 0);
    let last = store.chunk(25, 20, vec![0; 5]);
    assert!(last.done);
    let middle = store.chunk(25, 10, vec![0; 10]);
    assert!(!middle.done);
    assert_eq!(middle.position, 10);
}

#[test]
fn chunks_restore_the_snapshot() {
    let store = SnapshotStore::new(String::from("base")).with_chunk_size(7);
    let data: Vec<u8> = (0..50).collect();
    let mut received: Vec<u8> = vec![1, 2, 3];
    let mut position = 0;
    loop {
        let chunk = store.read_chunk(&data, position);
        let w = store.plan_write(&chunk);
        if w.create {
            received.clear();
        }
        assert_eq!(w.position, received.len() as u64);
        received.extend(&chunk.data);
        position += chunk.data.len() as u64;
        if w.write_meta {
            break;
        }
    }
    assert_eq!(received, data);
}

#[test]
fn only_the_first_chunk_creates_the_file() {
    let store = SnapshotStore::new(String::from("base"));
    let first = SnapshotChunk { data: vec![1], position: 0, done: false };
    assert_eq!(
        store.plan_write(&first),
        ChunkWrite { create: true, position: 0, write_meta: false }
    );
    let last = SnapshotChunk { data: vec![1], position: 5, done: true };
    assert_eq!(
        store.plan_write(&last),
        ChunkWrite { create: false, position: 5, write_meta: true }
    );
}

#[test]
fn snapshots_are_listed_from_the_latest() {
    let store = SnapshotStore::new(String::from("base"));
    let m = |term, index| SnapshotMetadata { term, index };
    let sorted = store.list_snapshots(vec![m(1, 9), m(3, 2), m(2, 50), m(3, 7), m(1, 1)]);
    assert_eq!(sorted, vec![m(3, 7), m(3, 2), m(2, 50), m(1, 9), m(1, 1)]);
    assert_eq!(store.older_than(&sorted, &m(2, 50)), vec![m(1, 9), m(1, 1)]);
    assert!(store.older_than(&sorted, &m(1, 1)).is_empty());
    assert!(m(1, 9).is_older(&m(2, 0)));
    assert!(!m(2, 0).is_older(&m(2, 0)));
}
