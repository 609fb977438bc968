use bytes::Bytes;

use xraft::app_record::{AppRecord, AppSnapshot};
use xraft::log_entry::{EntryType, LogEntry};
use xraft::snapshot::{Snapshot, SnapshotMetadata, SnapshotReader, SnapshotWriter};
use xraft::types::Term;
use xraft::voter::{VoterInfo, VotersRecord};

#[test]
fn domain_types_term_ordering() {
    assert!(Term(3) < Term(5));
    assert!(Term(5) > Term(3));
    assert_eq!(Term(3), Term(3));
    assert_ne!(Term(3), Term(5));
}

#[test]
fn log_entry_command_roundtrip() {
    let app_record = AppRecord {
        data: Bytes::from(vec![1u8, 2, 3, 4, 5]),
    };
    let payload = bincode::serialize(&app_record.data).unwrap();

    let entry = LogEntry {
        offset: 42,
        term: Term(7),
        entry_type: EntryType::Command,
        payload: Bytes::from(payload),
    };

    let encoded = entry.encode();
    let decoded = LogEntry::decode(&encoded).unwrap();

    assert_eq!(entry, decoded);

    // Verify the record inside can be recovered.
    let recovered: Bytes = bincode::deserialize(&decoded.payload).unwrap();
    assert_eq!(app_record.data, recovered);
}

#[test]
fn voters_record_roundtrip() {
    let record = VotersRecord {
        version: 1,
        voters: vec![
            VoterInfo::new(1, "10.0.0.1:9000"),
            VoterInfo::new(2, "10.0.0.2:9000"),
            VoterInfo::new(3, "10.0.0.3:9000"),
        ],
    };

    let encoded = record.encode();
    let decoded = VotersRecord::decode(&encoded).unwrap();

    assert_eq!(record, decoded);
}

#[test]
fn snapshot_reader_chunks() {
    let data = vec![1u8, 2, 3, 4, 5, 6, 7, 8, 9, 10];
    let mut reader = SnapshotReader::new(Snapshot {
        metadata: SnapshotMetadata {
            last_included_offset: 10,
            last_included_term: 2,
            voters: vec![],
            leader_epoch: 1,
        },
        app_snapshot: AppSnapshot::new(data),
    });

    assert_eq!(reader.len(), 10);
    assert!(!reader.is_empty());

    let (chunk1, done1) = reader.read_chunk(4);
    assert_eq!(chunk1.as_ref(), &[1, 2, 3, 4]);
    assert!(!done1);

    let (chunk2, done2) = reader.read_chunk(4);
    assert_eq!(chunk2.as_ref(), &[5, 6, 7, 8]);
    assert!(!done2);

    let (chunk3, done3) = reader.read_chunk(4);
    assert_eq!(chunk3.as_ref(), &[9, 10]);
    assert!(done3);
}

#[test]
fn snapshot_writer_accumulates() {
    let mut writer = SnapshotWriter::new();
    assert_eq!(writer.bytes_written(), 0);

    writer.write_chunk(&[1, 2, 3]);
    assert_eq!(writer.bytes_written(), 3);

    writer.write_chunk(&[4, 5]);
    assert_eq!(writer.bytes_written(), 5);

    let result = writer.finalize();
    assert_eq!(result, vec![1, 2, 3, 4, 5]);
}

#[test]
fn entry_type_variants() {
    let types = [
        EntryType::Command,
        EntryType::LeaderChangeMessage,
        EntryType::VotersRecord,
    ];
    for et in &types {
        let encoded = et.tag();
        let decoded = EntryType::from_tag(encoded).unwrap();
        assert_eq!(*et, decoded);
    }
}

// Encodings

#[test]
fn an_encoded_entry_is_four_fields_in_a_row() {
    let entry = LogEntry {
        offset: 0x0102,
        term: Term(7),
        entry_type: EntryType::VotersRecord,
        payload: Bytes::from(vec![0xAA, 0xBB]),
    };
    let mut expected = vec![0x02, 0x01, 0, 0, 0, 0, 0, 0];
    expected.extend([7, 0, 0, 0, 0, 0, 0, 0]);
    expected.extend([2, 0, 0, 0]);
    expected.extend([2, 0, 0, 0, 0, 0, 0, 0]);
    expected.extend([0xAA, 0xBB]);
    assert_eq!(entry.encode(), expected);
}

#[test]
fn decoding_ignores_what_follows_an_entry() {
    let entry = LogEntry::leader_change(9, Term(3));
    let mut bytes = entry.encode();
    bytes.extend([1, 2, 3]);
    assert_eq!(LogEntry::decode(&bytes).unwrap(), entry);
}

#[test]
fn decoding_rejects_short_and_unknown_entries() {
    let mut bytes = LogEntry::leader_change(9, Term(3)).encode();
    assert!(LogEntry::decode(&bytes[..27]).is_err());
    bytes[16] = 3;
    assert_eq!(
        LogEntry::decode(&bytes).unwrap_err(),
        "invalid value: integer `3`, expected variant index 0 <= i < 3"
    );
    assert_eq!(EntryType::from_tag(3), None);
}

#[test]
fn an_encoded_voters_record_counts_its_voters() {
    let record = VotersRecord {
        version: 5,
        voters: vec![VoterInfo::new(9, "ab")],
    };
    let mut expected = vec![5, 0, 0, 0];
    expected.extend([1, 0, 0, 0, 0, 0, 0, 0]);
    expected.extend([9, 0, 0, 0, 0, 0, 0, 0]);
    expected.extend([2, 0, 0, 0, 0, 0, 0, 0]);
    expected.extend(b"ab");
    expected.extend([0, 0, 0, 0, 0, 0, 0, 0]);
    assert_eq!(record.encode(), expected);
    assert!(VotersRecord::decode(&expected[..10]).is_err());
    // What follows is ignored; an endpoint must be there in full, and text.
    let mut longer = expected.clone();
    longer.push(7);
    assert_eq!(VotersRecord::decode(&longer).unwrap().voters, record.voters);
    assert!(VotersRecord::decode(&expected[..expected.len() - 1]).is_err());
    let mut no_text = expected.clone();
    no_text[28] = 0xff;
    assert!(VotersRecord::decode(&no_text).is_err());
    let mut too_long = expected;
    too_long[20] = 200;
    assert!(VotersRecord::decode(&too_long).is_err());
}

#[test]
fn an_app_record_is_the_payload_of_a_command() {
    let record = AppRecord::new(vec![1, 2, 3]);
    let entry = LogEntry::from_app_record(xraft::types::Offset(4), Term(2), &record);
    assert_eq!(entry.offset, 4);
    assert_eq!(entry.entry_type, EntryType::Command);
    assert_eq!(entry.as_app_record(), record);
}

#[test]
fn an_empty_snapshot_is_read_at_once() {
    let mut reader = SnapshotReader::new(Snapshot {
        metadata: SnapshotMetadata {
            last_included_offset: 0,
            last_included_term: 0,
            voters: vec![],
            leader_epoch: 0,
        },
        app_snapshot: AppSnapshot::new(vec![]),
    });
    assert!(reader.is_empty());
    let (chunk, done) = reader.read_chunk(16);
    assert!(chunk.is_empty());
    assert!(done);
}
