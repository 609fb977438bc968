//! Entries of the replicated log.
use bytes::Bytes;
use vstd::prelude::*;

use crate::app_record::AppRecord;
use crate::codec::{
    bytes_clone, bytes_content, bytes_empty, bytes_from_vec, bytes_to_vec, deserialize_entry,
    entry_decodable, entry_encoding, entry_payload, le_value, lemma_entry_round_trip, read_u32,
    serialize_entry,
};
use crate::text::{append_decimal, decimal};
use crate::types::{Offset, Term};
use crate::voter::VotersRecord;

verus! {

/// The type of a log entry.
#[derive(Debug, Clone, Copy, PartialEq, Eq, Structural)]
pub enum EntryType {
    /// Application-level state machine command (wraps an `AppRecord`).
    Command,
    /// Appended by a new leader as the first entry of its term.
    LeaderChangeMessage,
    /// Encodes the complete new voter set for membership changes.
    VotersRecord,
}

impl EntryType {
    /// The number that stands for the type in an encoded entry.
    pub open spec fn spec_tag(self) -> u32 {
        match self {
            EntryType::Command => 0,
            EntryType::LeaderChangeMessage => 1,
            EntryType::VotersRecord => 2,
        }
    }

    /// The type that a number stands for.
    pub open spec fn spec_from_tag(tag: u32) -> Option<EntryType> {
        if tag == 0 {
            Some(EntryType::Command)
        } else if tag == 1 {
            Some(EntryType::LeaderChangeMessage)
        } else if tag == 2 {
            Some(EntryType::VotersRecord)
        } else {
            None
        }
    }

    pub fn tag(&self) -> (t: u32)
        ensures
            t == self.spec_tag(),
            EntryType::spec_from_tag(t) == Some(*self),
    {
        match self {
            EntryType::Command => 0,
            EntryType::LeaderChangeMessage => 1,
            EntryType::VotersRecord => 2,
        }
    }

    pub fn from_tag(tag: u32) -> (r: Option<EntryType>)
        ensures
            r == EntryType::spec_from_tag(tag),
    {
        match tag {
            0 => Some(EntryType::Command),
            1 => Some(EntryType::LeaderChangeMessage),
            2 => Some(EntryType::VotersRecord),
            _ => None,
        }
    }
}

/// A single entry in the replicated log.
#[derive(Debug, PartialEq, Eq)]
pub struct LogEntry {
    /// Position in the log (0-indexed).
    pub offset: u64,
    /// Term when the entry was created.
    pub term: Term,
    /// Discriminator for entry content.
    pub entry_type: EntryType,
    /// Serialised command or control record.
    pub payload: Bytes,
}

#[verifier::ext_equal]
pub struct LogEntryView {
    pub offset: u64,
    pub term: Term,
    pub entry_type: EntryType,
    pub payload: Seq<u8>,
}

impl View for LogEntry {
    type V = LogEntryView;

    open spec fn view(&self) -> LogEntryView {
        LogEntryView {
            offset: self.offset,
            term: self.term,
            entry_type: self.entry_type,
            payload: bytes_content(self.payload),
        }
    }
}

impl Clone for LogEntry {
    fn clone(&self) -> (r: Self)
        ensures
            r@ == self@,
    {
        LogEntry {
            offset: self.offset,
            term: self.term,
            entry_type: self.entry_type,
            payload: bytes_clone(&self.payload),
        }
    }
}

/// The views of a list of entries.
pub open spec fn entry_views(entries: Seq<LogEntry>) -> Seq<LogEntryView> {
    entries.map_values(|e: LogEntry| e@)
}

pub proof fn lemma_entry_views_push(entries: Seq<LogEntry>, e: LogEntry)
    ensures
        entry_views(entries.push(e)) == entry_views(entries).push(e@),
{
    assert(entry_views(entries.push(e)) =~= entry_views(entries).push(e@));
}

/// A copy of a list of entries.
pub fn clone_entries(entries: &Vec<LogEntry>) -> (r: Vec<LogEntry>)
    ensures
        entry_views(r@) == entry_views(entries@),
{
    let mut r: Vec<LogEntry> = Vec::new();
    append_clones(&mut r, entries);
    assert(entry_views(r@) =~= entry_views(entries@));
    r
}

/// Appends copies of `entries` to `out`.
pub fn append_clones(out: &mut Vec<LogEntry>, entries: &Vec<LogEntry>)
    ensures
        entry_views(final(out)@) == entry_views(old(out)@) + entry_views(entries@),
        final(out)@.len() == old(out)@.len() + entries@.len(),
{
    let ghost before = entry_views(out@);
    let mut i: usize = 0;
    while i < entries.len()
        invariant
            i <= entries@.len(),
            out@.len() == before.len() + i,
            entry_views(out@) == before + entry_views(entries@).take(i as int),
        decreases entries@.len() - i,
    {
        let ghost prev = out@;
        out.push(entries[i].clone());
        i = i + 1;
        proof {
            lemma_entry_views_push(prev, out@.last());
            assert(entry_views(entries@).take(i as int) =~= entry_views(entries@).take(
                i - 1,
            ).push(entries@[i - 1]@));
            assert(entry_views(out@) =~= before + entry_views(entries@).take(i as int));
        }
    }
    assert(entry_views(out@) =~= before + entry_views(entries@));
}

/// True if the offsets of the entries grow by one.
pub open spec fn contiguous(entries: Seq<LogEntryView>) -> bool {
    forall|i: int|
        0 <= i < entries.len() ==> #[trigger] entries[i].offset == entries[0].offset + i
}

impl LogEntryView {
    /// The bytes of the entry.
    pub open spec fn encoding(self) -> Seq<u8> {
        entry_encoding(self.offset, self.term.0, self.entry_type.spec_tag(), self.payload)
    }

    /// The entry that `b` starts with, if it starts with one.
    pub open spec fn decoding(b: Seq<u8>) -> Option<LogEntryView> {
        if entry_decodable(b) {
            match EntryType::spec_from_tag(le_value(b.subrange(16, 20)) as u32) {
                Some(entry_type) => Some(
                    LogEntryView {
                        offset: le_value(b.subrange(0, 8)) as u64,
                        term: Term(le_value(b.subrange(8, 16)) as u64),
                        entry_type,
                        payload: entry_payload(b),
                    },
                ),
                None => None,
            }
        } else {
            None
        }
    }

    /// Decoding the bytes of an entry gives the entry back.
    pub proof fn lemma_round_trip(self)
        requires
            self.payload.len() <= u64::MAX,
        ensures
            Self::decoding(self.encoding()) == Some(self),
            self.encoding().len() == 28 + self.payload.len(),
    {
        lemma_entry_round_trip(
            self.offset,
            self.term.0,
            self.entry_type.spec_tag(),
            self.payload,
        );
    }
}

/// The text that reports a number which stands for no entry type.
pub open spec fn unknown_tag_message(tag: u32) -> Seq<char> {
    "invalid value: integer `"@ + decimal(tag as nat) + "`, expected variant index 0 <= i < 3"@
}

impl LogEntry {
    /// Create a command log entry from already serialised command bytes.
    pub fn command(offset: Offset, term: Term, data: Vec<u8>) -> (r: Self)
        ensures
            r@ == (LogEntryView {
                offset: offset.0,
                term,
                entry_type: EntryType::Command,
                payload: data@,
            }),
    {
        LogEntry {
            offset: offset.0,
            term,
            entry_type: EntryType::Command,
            payload: bytes_from_vec(data),
        }
    }

    /// Convenience: build a command entry directly from an `AppRecord`.
    pub fn from_app_record(offset: Offset, term: Term, record: &AppRecord) -> (r: Self)
        ensures
            r@ == (LogEntryView {
                offset: offset.0,
                term,
                entry_type: EntryType::Command,
                payload: record@,
            }),
    {
        Self::command(offset, term, bytes_to_vec(&record.data))
    }

    /// Create a leader change message (no-op) log entry.
    pub fn leader_change(offset: u64, term: Term) -> (r: Self)
        ensures
            r@ == (LogEntryView {
                offset,
                term,
                entry_type: EntryType::LeaderChangeMessage,
                payload: Seq::empty(),
            }),
    {
        LogEntry {
            offset,
            term,
            entry_type: EntryType::LeaderChangeMessage,
            payload: bytes_empty(),
        }
    }

    /// Create a `VotersRecord` log entry that holds the record's bytes.
    pub fn voters_record(offset: Offset, term: Term, record: &VotersRecord) -> (r: Self)
        ensures
            r@ == (LogEntryView {
                offset: offset.0,
                term,
                entry_type: EntryType::VotersRecord,
                payload: record@.encoding(),
            }),
            crate::voter::VotersRecordView::decoding(r@.payload) == Some(record@),
    {
        let bytes = record.encode();
        LogEntry {
            offset: offset.0,
            term,
            entry_type: EntryType::VotersRecord,
            payload: bytes_from_vec(bytes),
        }
    }

    /// The payload as an application record.
    pub fn as_app_record(&self) -> (r: AppRecord)
        ensures
            r@ == self@.payload,
    {
        AppRecord { data: bytes_clone(&self.payload) }
    }

    /// The voters record in the payload. The text of a failure comes from the
    /// decoder.
    pub fn decode_voters(&self) -> (r: Result<VotersRecord, String>)
        ensures
            r is Ok <==> crate::voter::VotersRecordView::decoding(self@.payload) is Some,
            r matches Ok(rec) ==> crate::voter::VotersRecordView::decoding(self@.payload) == Some(
                rec@,
            ),
    {
        let bytes = bytes_to_vec(&self.payload);
        VotersRecord::decode(bytes.as_slice())
    }

    /// The bytes of the entry.
    pub fn encode(&self) -> (b: Vec<u8>)
        ensures
            b@ == self@.encoding(),
    {
        serialize_entry(self.offset, self.term.0, self.entry_type.tag(), &self.payload)
    }

    /// The entry at the front of `b`. An unknown entry type is reported before
    /// a payload that is cut short; the text of the latter comes from the
    /// decoder.
    pub fn decode(b: &[u8]) -> (r: Result<LogEntry, String>)
        ensures
            r is Ok <==> LogEntryView::decoding(b@) is Some,
            r matches Ok(e) ==> LogEntryView::decoding(b@) == Some(e@),
            r matches Err(m) ==> (b@.len() >= 20 && EntryType::spec_from_tag(
                le_value(b@.subrange(16, 20)) as u32,
            ) is None ==> m@ == unknown_tag_message(le_value(b@.subrange(16, 20)) as u32)),
    {
        if b.len() >= 20 {
            let tag: u32 = read_u32(b, 16);
            if EntryType::from_tag(tag).is_none() {
                let mut m = String::from_str("invalid value: integer `");
                append_decimal(&mut m, tag as u64);
                m.append("`, expected variant index 0 <= i < 3");
                return Err(m);
            }
        }
        match deserialize_entry(b) {
            Err(e) => Err(e),
            Ok((offset, term, tag, payload)) => match EntryType::from_tag(tag) {
                Some(entry_type) => Ok(LogEntry { offset, term: Term(term), entry_type, payload }),
                None => Err(String::new()),
            },
        }
    }
}

/// Each type of entry has a number of its own, by which it is found again, and
/// no other number stands for a type.
pub proof fn law_entry_tags(a: EntryType, b: EntryType, tag: u32)
    ensures
        EntryType::spec_from_tag(a.spec_tag()) == Some(a),
        a != b ==> a.spec_tag() != b.spec_tag(),
        EntryType::spec_from_tag(tag) is Some <==> tag < 3,
        EntryType::Command.spec_tag() == 0,
        EntryType::LeaderChangeMessage.spec_tag() == 1,
        EntryType::VotersRecord.spec_tag() == 2,
{
}

} // verus!
