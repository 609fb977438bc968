use xraft::error::XraftError;
use xraft::log_entry::LogEntry;
use xraft::memory_log::MemoryLogStore;
use xraft::memory_quorum_state::MemoryQuorumStateStore;
use xraft::quorum_state::QuorumState;
use xraft::types::{ClusterId, NodeId, Offset, Term};

fn cmd(offset: u64) -> LogEntry {
    LogEntry::command(Offset(offset), Term(1), vec![offset as u8])
}

fn message(e: XraftError) -> String {
    match e {
        XraftError::StorageError(f) => f.message,
        other => panic!("expected StorageError, got {other:?}"),
    }
}

#[test]
fn a_gap_before_the_entries_is_rejected() {
    let mut log = MemoryLogStore::with_base_offset(10);
    assert!(log.is_empty());
    let e = log.append(&[cmd(11)]).unwrap_err();
    assert_eq!(message(e), "non-contiguous append: expected offset 10, got 11");
    log.append(&[cmd(10)]).unwrap();
    let e = log.append(&[cmd(10)]).unwrap_err();
    assert_eq!(message(e), "non-contiguous append: expected offset 11, got 10");
    assert_eq!(log.len(), 1);
}

#[test]
fn a_gap_between_the_entries_is_rejected() {
    let mut log = MemoryLogStore::new();
    let e = log.append(&[cmd(0), cmd(1), cmd(3)]).unwrap_err();
    assert_eq!(message(e), "non-contiguous entries within batch: 1 then 3");
    assert!(log.is_empty());
    log.append(&[]).unwrap();
    assert_eq!(log.last_offset().unwrap(), None);
}

#[test]
fn appended_entries_are_read_back() {
    let mut log = MemoryLogStore::with_base_offset(5);
    log.append(&[cmd(5), cmd(6)]).unwrap();
    log.append(&[cmd(7)]).unwrap();
    for o in 5..8 {
        assert_eq!(log.read(Offset(o)).unwrap(), Some(cmd(o)));
    }
    assert_eq!(log.read(Offset(4)).unwrap(), None);
    assert_eq!(log.read(Offset(8)).unwrap(), None);
    assert_eq!(log.last_offset().unwrap(), Some(Offset(7)));
    log.sync().unwrap();
}

#[test]
fn truncation_splits_the_log() {
    let mut log = MemoryLogStore::default();
    let all: Vec<LogEntry> = (0..10).map(cmd).collect();
    log.append(&all).unwrap();
    log.truncate_suffix(Offset(8)).unwrap();
    assert_eq!(log.last_offset().unwrap(), Some(Offset(7)));
    log.truncate_suffix(Offset(100)).unwrap();
    assert_eq!(log.len(), 8);
    log.truncate_prefix(Offset(3)).unwrap();
    assert_eq!(log.len(), 5);
    assert_eq!(log.read(Offset(2)).unwrap(), None);
    assert_eq!(log.read(Offset(3)).unwrap(), Some(cmd(3)));
    log.truncate_prefix(Offset(20)).unwrap();
    assert!(log.is_empty());
    log.append(&[cmd(20)]).unwrap();
    log.truncate_suffix(Offset(0)).unwrap();
    assert!(log.is_empty());
}

#[test]
fn a_saved_quorum_state_is_loaded() {
    let mut store = MemoryQuorumStateStore::new();
    assert_eq!(store.load().unwrap(), QuorumState::default());
    let state = QuorumState {
        current_term: Term(4),
        voted_for: Some(NodeId(2)),
        leader_id: None,
        leader_epoch: Term(3),
        cluster_id: ClusterId(7),
    };
    store.save(&state).unwrap();
    assert_eq!(store.load().unwrap(), state);
    assert_eq!(MemoryQuorumStateStore::with_state(state).load().unwrap(), state);
}

#[test]
fn an_append_at_the_last_offset() {
    let mut log = MemoryLogStore::with_base_offset(u64::MAX);
    let e = log.append(&[cmd(u64::MAX), cmd(0)]).unwrap_err();
    assert_eq!(
        message(e),
        "non-contiguous entries within batch: 18446744073709551615 then 0"
    );
    log.append(&[cmd(u64::MAX)]).unwrap();
    log.append(&[]).unwrap();
    assert_eq!(log.len(), 1);
}
