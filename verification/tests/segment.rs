use bytes::Bytes;

use xraft::error::IoFaultKind;
use xraft::log_entry::{EntryType, LogEntry};
use xraft::segment::{batch_disk_size, segment_filename, Segment, SerializedEntry};
use xraft::segment_index::SparseIndex;
use xraft::types::Term;

fn make_entry(offset: u64, term: u64, payload: &[u8]) -> LogEntry {
    LogEntry {
        offset,
        term: Term(term),
        entry_type: EntryType::Command,
        payload: Bytes::from(payload.to_vec()),
    }
}

/// A segment with its log file in memory.
struct Stored {
    seg: Segment,
    file: Vec<u8>,
}

impl Stored {
    fn create(base: u64, interval: u32) -> Self {
        Stored { seg: Segment::create(base, interval), file: Vec::new() }
    }

    fn open(base: u64, interval: u32, file: Vec<u8>) -> Self {
        let seg = Segment::open(base, interval, &file);
        let mut file = file;
        file.truncate(seg.file_size() as usize);
        Stored { seg, file }
    }

    fn append(&mut self, entries: &[LogEntry]) {
        let w = self.seg.append(entries).unwrap();
        assert_eq!(w.position, self.file.len() as u64);
        self.file.extend(&w.bytes);
        self.seg.commit(&w);
        assert_eq!(self.seg.file_size(), self.file.len() as u64);
    }

    fn read(&self, start: u64, end: u64) -> Result<Vec<LogEntry>, xraft::error::IoFault> {
        let at = self.seg.read_position(start) as usize;
        self.seg.read(&self.file[at.min(self.file.len())..], start, end)
    }
}

#[test]
fn segment_append_and_read_back() {
    let mut seg = Stored::create(0, 4);

    let entries: Vec<LogEntry> = (0..10)
        .map(|i| make_entry(i, 1, &[i as u8; 8]))
        .collect();
    seg.append(&entries);

    assert_eq!(seg.seg.next_offset(), 10);
    assert!(seg.seg.file_size() > 0);

    let read_back = seg.read(0, 10).unwrap();
    assert_eq!(read_back.len(), 10);
    for (i, entry) in read_back.iter().enumerate() {
        assert_eq!(entry.offset, i as u64);
        assert_eq!(entry.term, Term(1));
        assert_eq!(entry.payload, vec![i as u8; 8]);
    }
}

#[test]
fn read_past_corruption_returns_storage_error() {
    let mut seg = Stored::create(0, 4);
    // Write 10 entries as individual batches
    for i in 0..10u64 {
        seg.append(&[make_entry(i, 1, &[i as u8; 16])]);
    }

    // Corrupt a batch mid-file (without reopening).
    // Each batch has the same size; corrupt batch 5's payload area
    let batch_size = seg.file.len() / 10;
    let corrupt_byte = batch_size * 5 + 14; // inside entry data
    seg.file[corrupt_byte] ^= 0xFF;

    // Read spanning the corruption: must return InvalidData error
    let err = seg.read(0, 10).unwrap_err();
    assert_eq!(err.kind, IoFaultKind::InvalidData);
    assert!(
        err.message.contains("CRC mismatch"),
        "expected CRC mismatch error, got: {err:?}"
    );
}

#[test]
fn open_recovers_valid_segment() {
    let file = {
        let mut seg = Stored::create(0, 4);
        let entries: Vec<LogEntry> = (0..20)
            .map(|i| make_entry(i, 1, &[i as u8; 8]))
            .collect();
        seg.append(&entries);
        seg.file
    };

    let seg = Stored::open(0, 4, file);
    assert_eq!(seg.seg.next_offset(), 20);

    let read_back = seg.read(0, 20).unwrap();
    assert_eq!(read_back.len(), 20);
}

#[test]
fn recovery_truncates_corrupt_trailing_batch() {
    let mut raw = {
        let mut seg = Stored::create(0, 4);
        for i in 0..10u64 {
            seg.append(&[make_entry(i, 1, &[i as u8; 16])]);
        }
        seg.file
    };

    // Corrupt the last batch
    let batch_size = raw.len() / 10;
    let corrupt_byte = batch_size * 9 + 14;
    raw[corrupt_byte] ^= 0xFF;

    // Recovery truncates from the corrupt batch onward
    let seg = Stored::open(0, 4, raw);
    assert_eq!(seg.seg.next_offset(), 9);
    let entries = seg.read(0, 9).unwrap();
    assert_eq!(entries.len(), 9);
}

#[test]
fn sparse_index_read_at_interval_boundary() {
    let mut seg = Stored::create(0, 4);

    for i in 0..16u64 {
        seg.append(&[make_entry(i, 1, &[i as u8; 8])]);
    }

    let read_at_4 = seg.read(4, 5).unwrap();
    assert_eq!(read_at_4.len(), 1);
    assert_eq!(read_at_4[0].offset, 4);

    let read_at_12 = seg.read(12, 13).unwrap();
    assert_eq!(read_at_12.len(), 1);
    assert_eq!(read_at_12[0].offset, 12);
}

#[test]
fn lookup_empty_returns_none() {
    let idx = SparseIndex::create(16);
    assert_eq!(idx.lookup(0), None);
    assert_eq!(idx.lookup(100), None);
}

#[test]
fn lookup_finds_floor_entry() {
    let mut idx = SparseIndex::create(16);

    // Offsets: 0, 16, 32, 48
    idx.append(0, 0);
    idx.append(16, 1000);
    idx.append(32, 2500);
    idx.append(48, 4000);

    assert_eq!(idx.lookup(0), Some(0));
    assert_eq!(idx.lookup(5), Some(0));
    assert_eq!(idx.lookup(16), Some(1000));
    assert_eq!(idx.lookup(31), Some(1000));
    assert_eq!(idx.lookup(32), Some(2500));
    assert_eq!(idx.lookup(100), Some(4000));
}

#[test]
fn persistence_roundtrip() {
    let file = {
        let mut idx = SparseIndex::create(16);
        idx.append(0, 0);
        idx.append(16, 500);
        idx.append(32, 1200);
        idx.encode()
    };

    let idx = SparseIndex::open(&file, 16);
    assert_eq!(idx.len(), 3);
    assert_eq!(idx.lookup(20), Some(500));
}

// The file format

#[test]
fn a_batch_has_length_checksum_count_and_frames() {
    let seg = Segment::create(7, 1);
    let entry = make_entry(7, 2, b"xyz");
    let data = entry.encode();
    let w = seg.append(&[entry]).unwrap();
    assert_eq!(w.count, 1);
    assert_eq!(w.marks, vec![(7, 0)]);
    assert_eq!(w.size, w.bytes.len() as u64);
    assert_eq!(w.bytes.len(), 16 + data.len());
    assert_eq!(w.bytes[0..4], ((12 + data.len()) as u32).to_le_bytes());
    assert_eq!(w.bytes[4..8], crc32c::crc32c(&w.bytes[8..]).to_le_bytes());
    assert_eq!(w.bytes[8..12], 1u32.to_le_bytes());
    assert_eq!(w.bytes[12..16], (data.len() as u32).to_le_bytes());
    assert_eq!(w.bytes[16..], data[..]);
}

#[test]
fn sizes_count_headers_and_frames() {
    let entry = SerializedEntry::from_entry(&make_entry(0, 1, &[0; 10])).unwrap();
    assert_eq!(entry.data.len(), 38);
    assert_eq!(entry.frame_size(), 42);
    assert_eq!(batch_disk_size(&[]), 12);
    let other = SerializedEntry { data: vec![0; 5] };
    assert_eq!(batch_disk_size(&[entry, other]), 12 + 42 + 9);
}

#[test]
fn nothing_is_written_for_no_entries() {
    let mut seg = Segment::create(3, 4);
    let w = seg.append(&[]).unwrap();
    assert!(w.bytes.is_empty());
    assert!(w.marks.is_empty());
    seg.commit(&w);
    assert_eq!(seg.next_offset(), 3);
    assert_eq!(seg.file_size(), 0);
}

#[test]
fn one_in_every_interval_is_indexed() {
    let mut seg = Stored::create(100, 4);
    let entries: Vec<LogEntry> = (100..110).map(|i| make_entry(i, 1, b"x")).collect();
    seg.append(&entries[..3]);
    let second = seg.file.len() as u64;
    seg.append(&entries[3..]);
    let idx = SparseIndex::open(&seg.seg.index_bytes(), 4);
    assert_eq!(idx.len(), 3);
    assert_eq!(idx.lookup(99), None);
    assert_eq!(idx.lookup(103), Some(0));
    assert_eq!(idx.lookup(104), Some(second));
    assert_eq!(idx.lookup(109), Some(second));
    assert_eq!(idx.interval(), 4);
    assert!(!idx.is_empty());
}

#[test]
fn names_have_twenty_digits() {
    assert_eq!(segment_filename(0), "00000000000000000000");
    assert_eq!(segment_filename(1234), "00000000000000001234");
    assert_eq!(segment_filename(u64::MAX), "18446744073709551615");
}

// Recovery

#[test]
fn a_torn_index_entry_is_dropped() {
    let mut idx = SparseIndex::create(1);
    idx.append(1, 10);
    idx.append(2, 20);
    let mut file = idx.encode();
    assert_eq!(file.len(), 32);
    file.extend([9; 15]);
    assert_eq!(SparseIndex::open(&file, 1).len(), 2);
}

#[test]
fn recovery_stops_at_a_torn_batch() {
    let mut seg = Stored::create(0, 2);
    for i in 0..4u64 {
        seg.append(&[make_entry(i, 1, b"payload")]);
    }
    let whole = seg.file.len();
    let batch = whole / 4;
    for cut in [1, batch - 1] {
        let again = Stored::open(0, 2, seg.file[..whole - cut].to_vec());
        assert_eq!(again.seg.next_offset(), 3);
        assert_eq!(again.file.len(), 3 * batch);
        assert_eq!(again.read(0, 10).unwrap().len(), 3);
    }
    let again = Stored::open(0, 2, Vec::new());
    assert_eq!(again.seg.next_offset(), 0);
}

#[test]
fn recovery_of_what_was_recovered_changes_nothing() {
    let mut seg = Stored::create(5, 3);
    seg.append(&[make_entry(5, 1, b"a"), make_entry(6, 1, b"b")]);
    seg.append(&[make_entry(7, 2, b"c")]);
    let mut file = seg.file.clone();
    file.extend([0xFF; 40]);
    let once = Stored::open(5, 3, file);
    assert_eq!(once.file, seg.file);
    let twice = Stored::open(5, 3, once.file.clone());
    assert_eq!(twice.file, once.file);
    assert_eq!(twice.seg.next_offset(), 8);
    assert_eq!(twice.seg.index_bytes(), seg.seg.index_bytes());
}

// Reading

#[test]
fn reads_outside_the_segment_are_empty() {
    let mut seg = Stored::create(10, 4);
    seg.append(&[make_entry(10, 1, b"a"), make_entry(11, 1, b"b")]);
    assert!(seg.read(12, 20).unwrap().is_empty());
    assert!(seg.read(11, 11).unwrap().is_empty());
    assert!(seg.read(0, 10).unwrap().is_empty());
    assert_eq!(seg.read(0, 100).unwrap().len(), 2);
    assert_eq!(seg.seg.base_offset(), 10);
}

#[test]
fn a_read_that_ends_at_a_damaged_batch_succeeds() {
    let mut seg = Stored::create(0, 4);
    for i in 0..10u64 {
        seg.append(&[make_entry(i, 1, &[i as u8; 16])]);
    }
    let batch_size = seg.file.len() / 10;
    seg.file[batch_size * 7 + 14] ^= 0xFF;
    let offsets = |from: u64, to: u64| -> Vec<u64> {
        seg.read(from, to).unwrap().iter().map(|e| e.offset).collect()
    };
    assert_eq!(offsets(0, 7), vec![0, 1, 2, 3, 4, 5, 6]);
    assert_eq!(offsets(6, 7), vec![6]);
    assert_eq!(offsets(0, 1), vec![0]);
    for (from, to) in [(0, 8), (7, 8), (6, 100)] {
        let err = seg.read(from, to).unwrap_err();
        assert_eq!(err.kind, IoFaultKind::InvalidData);
        assert!(err.message.contains("CRC mismatch"));
    }
}

fn one_batch() -> Stored {
    let mut seg = Stored::create(0, 1);
    seg.append(&[make_entry(0, 1, b"abcd")]);
    seg
}

fn reseal(file: &mut [u8]) {
    let crc = crc32c::crc32c(&file[8..]);
    file[4..8].copy_from_slice(&crc.to_le_bytes());
}

#[test]
fn an_impossible_length_is_reported() {
    let mut seg = one_batch();
    seg.file[0..4].copy_from_slice(&7u32.to_le_bytes());
    let e = seg.read(0, 1).unwrap_err();
    assert_eq!(e.kind, IoFaultKind::InvalidData);
    assert_eq!(e.message, "corrupt batch at byte 0: invalid batch_len 7");
    seg.file[0..4].copy_from_slice(&(64 * 1024 * 1024 + 1u32).to_le_bytes());
    let e = seg.read(0, 1).unwrap_err();
    assert_eq!(e.message, "corrupt batch at byte 0: invalid batch_len 67108865");
}

#[test]
fn a_file_that_ends_early_is_reported() {
    let mut seg = one_batch();
    seg.file.pop();
    let e = seg.read(0, 1).unwrap_err();
    assert_eq!(e.kind, IoFaultKind::UnexpectedEof);
    assert_eq!(e.message, "failed to fill whole buffer");
    seg.file.truncate(3);
    assert!(seg.read(0, 1).unwrap().is_empty());
}

#[test]
fn a_wrong_checksum_is_reported_in_hexadecimal() {
    let mut seg = one_batch();
    let computed = crc32c::crc32c(&seg.file[8..]);
    seg.file[4..8].copy_from_slice(&0x1fu32.to_le_bytes());
    let e = seg.read(0, 1).unwrap_err();
    assert_eq!(
        e.message,
        format!("CRC mismatch at batch byte 0: stored=0x0000001f computed={computed:#010x}")
    );
}

#[test]
fn frames_that_do_not_fit_are_reported() {
    let mut seg = one_batch();
    seg.file[8..12].copy_from_slice(&2u32.to_le_bytes());
    reseal(&mut seg.file);
    let e = seg.read(0, 1).unwrap_err();
    assert_eq!(e.message, "truncated entry frame at byte 0");

    let mut seg = one_batch();
    seg.file[12..16].copy_from_slice(&1000u32.to_le_bytes());
    reseal(&mut seg.file);
    let e = seg.read(0, 1).unwrap_err();
    assert_eq!(e.message, "truncated entry data at byte 0");
}

#[test]
fn an_entry_that_does_not_decode_is_reported() {
    let mut seg = one_batch();
    seg.file[16 + 16] = 9;
    reseal(&mut seg.file);
    let e = seg.read(0, 1).unwrap_err();
    assert_eq!(e.kind, IoFaultKind::InvalidData);
    assert_eq!(
        e.message,
        "deserialization failed at byte 0: invalid value: integer `9`, expected variant index 0 <= i < 3"
    );
    assert_eq!(Stored::open(0, 1, seg.file).seg.next_offset(), 0);
}

#[test]
fn faults_name_the_byte_of_their_batch() {
    let mut seg = Stored::create(0, 1);
    seg.append(&[make_entry(0, 1, b"abcd")]);
    let second = seg.file.len();
    seg.append(&[make_entry(1, 1, b"efgh")]);
    seg.file[second..second + 4].copy_from_slice(&0u32.to_le_bytes());
    let e = seg.read(1, 2).unwrap_err();
    assert_eq!(e.message, format!("corrupt batch at byte {second}: invalid batch_len 0"));
    assert_eq!(seg.read(0, 2).unwrap_err().message, e.message);
    assert_eq!(seg.read(0, 1).unwrap().len(), 1);
}
