use xraft::error::{IoFaultKind, XraftError};
use xraft::log_entry::LogEntry;
use xraft::memory_log_store::MemoryLogStore;
use xraft::types::{Offset, Term};

fn cmd(offset: u64, term: u64, data: &[u8]) -> LogEntry {
    LogEntry::command(Offset(offset), Term(term), data.to_vec())
}

#[test]
fn memory_log_store_append_and_read_back() {
    let mut store = MemoryLogStore::new();
    let entries: Vec<LogEntry> = (0u64..100)
        .map(|i| cmd(i, 1, &i.to_le_bytes()))
        .collect();
    store.append_sync(&entries).unwrap();

    assert_eq!(store.log_start_offset(), 0);
    assert_eq!(store.log_end_offset(), 100);

    let readback = store.read_sync(0, 100).unwrap();
    assert_eq!(readback.len(), 100);
    for (i, e) in readback.iter().enumerate() {
        assert_eq!(e.offset, i as u64);
        assert_eq!(e.term.0, 1);
    }
}

#[test]
fn memory_log_store_entry_at_returns_correct_entry() {
    let mut store = MemoryLogStore::new();
    store
        .append_sync(&[cmd(0, 1, b"a"), cmd(1, 1, b"b")])
        .unwrap();
    let e = store.entry_at_sync(1).unwrap().unwrap();
    assert_eq!(e.payload, b"b".as_slice());
    assert!(store.entry_at_sync(5).unwrap().is_none());
}

#[test]
fn truncate_suffix_removes_tail() {
    let mut store = MemoryLogStore::new();
    let entries: Vec<LogEntry> = (0..10).map(|i| cmd(i, 1, b"x")).collect();
    store.append_sync(&entries).unwrap();
    store.truncate_suffix_sync(5).unwrap();
    assert_eq!(store.log_end_offset(), 5);
    assert!(store.entry_at_sync(5).unwrap().is_none());
}

#[test]
fn truncate_prefix_compacts() {
    let mut store = MemoryLogStore::new();
    let entries: Vec<LogEntry> = (0..10).map(|i| cmd(i, 1, b"x")).collect();
    store.append_sync(&entries).unwrap();
    store.truncate_prefix_sync(5).unwrap();
    assert_eq!(store.log_start_offset(), 5);
    assert_eq!(store.log_end_offset(), 10);
    assert!(store.entry_at_sync(3).unwrap().is_none());
    assert!(store.entry_at_sync(5).unwrap().is_some());
}

#[test]
fn fsync_failure_injection() {
    let mut store = MemoryLogStore::new();
    store.set_fsync_failure(true);
    let result = store.append_sync(&[cmd(0, 1, b"x")]);
    assert!(result.is_err());
}

#[test]
fn a_failed_append_leaves_the_log_alone() {
    let mut store = MemoryLogStore::default();
    store.append_sync(&[cmd(0, 1, b"a")]).unwrap();
    store.set_fsync_failure(true);
    match store.append_sync(&[cmd(1, 1, b"b")]).unwrap_err() {
        XraftError::StorageError(f) => {
            assert_eq!(f.kind, IoFaultKind::Other);
            assert_eq!(f.message, "simulated fsync failure");
        }
        other => panic!("expected StorageError, got {other:?}"),
    }
    assert_eq!(store.entries().len(), 1);
    store.set_fsync_failure(false);
    store.append_sync(&[cmd(1, 1, b"b")]).unwrap();
    assert_eq!(store.entries().len(), 2);
}

#[test]
fn reads_are_clamped_to_the_log() {
    let mut store = MemoryLogStore::new();
    let entries: Vec<LogEntry> = (0..10).map(|i| cmd(i, 1, b"x")).collect();
    store.append_sync(&entries).unwrap();
    store.truncate_prefix_sync(4).unwrap();
    let all = store.read_sync(0, 100).unwrap();
    assert_eq!(all.first().map(|e| e.offset), Some(4));
    assert_eq!(all.last().map(|e| e.offset), Some(9));
    assert!(store.read_sync(8, 6).unwrap().is_empty());
    assert!(store.read_sync(50, 60).unwrap().is_empty());
}

#[test]
fn a_prefix_beyond_the_end_empties_the_log() {
    let mut store = MemoryLogStore::new();
    store.append_sync(&[cmd(0, 1, b"a")]).unwrap();
    store.truncate_prefix_sync(7).unwrap();
    assert_eq!(store.log_start_offset(), 7);
    assert_eq!(store.log_end_offset(), 7);
    store.truncate_suffix_sync(3).unwrap();
    assert!(store.entries().is_empty());
}

#[test]
fn an_entry_can_be_overwritten() {
    let mut store = MemoryLogStore::new();
    store.append_sync(&[cmd(0, 1, b"a"), cmd(1, 1, b"b")]).unwrap();
    store.overwrite_entry(1, cmd(1, 9, b"z"));
    assert_eq!(store.entry_at_sync(1).unwrap().unwrap().term, Term(9));
    store.overwrite_entry(5, cmd(5, 9, b"z"));
    assert_eq!(store.entries().len(), 2);
}

fn refused(store: &mut MemoryLogStore, entries: &[LogEntry]) -> String {
    match store.append_sync(entries).unwrap_err() {
        XraftError::StorageError(f) => {
            assert_eq!(f.kind, IoFaultKind::Other);
            f.message
        }
        other => panic!("expected StorageError, got {other:?}"),
    }
}

#[test]
fn an_append_must_continue_the_log() {
    let mut store = MemoryLogStore::new();
    store.append_sync(&[cmd(0, 1, b"a"), cmd(1, 1, b"b")]).unwrap();
    assert_eq!(
        refused(&mut store, &[cmd(5, 1, b"x")]),
        "non-contiguous append: expected offset 2, got 5"
    );
    assert_eq!(
        refused(&mut store, &[cmd(1, 1, b"x")]),
        "non-contiguous append: expected offset 2, got 1"
    );
    assert_eq!(
        refused(&mut store, &[cmd(2, 1, b"c"), cmd(4, 1, b"x")]),
        "non-contiguous entries within batch: 2 then 4"
    );
    assert_eq!(store.entries().len(), 2);
    assert_eq!(store.log_end_offset(), 2);
    store.append_sync(&[]).unwrap();
    store.append_sync(&[cmd(2, 1, b"c"), cmd(3, 1, b"d")]).unwrap();
    assert_eq!(store.log_end_offset(), 4);
    // The entries before are read as before.
    assert_eq!(store.read_sync(2, 4).unwrap()[1].payload, b"d".as_slice());
    assert_eq!(store.read_sync(0, 1).unwrap()[0].payload, b"a".as_slice());
    store.truncate_prefix_sync(9).unwrap();
    assert!(store.append_sync(&[cmd(4, 1, b"x")]).is_err());
    store.append_sync(&[cmd(9, 1, b"y")]).unwrap();
    assert_eq!(store.log_end_offset(), 10);
}

#[test]
fn nothing_follows_the_last_offset() {
    let mut store = MemoryLogStore::new();
    store.truncate_prefix_sync(u64::MAX).unwrap();
    assert_eq!(
        refused(&mut store, &[cmd(u64::MAX, 1, b"a"), cmd(0, 1, b"b")]),
        "non-contiguous entries within batch: 18446744073709551615 then 0"
    );
    store.append_sync(&[cmd(u64::MAX, 1, b"a")]).unwrap();
    assert_eq!(store.entries().len(), 1);
    store.append_sync(&[]).unwrap();
}
