//! The sparse index of a segment.
use vstd::prelude::*;

use crate::codec::{
    append_u64, le_bytes, le_value, lemma_byte_range, lemma_le_value_bound, lemma_u64_round_trip,
    read_u64,
};

verus! {

/// How many bytes an index entry takes: an offset and a byte position.
pub const INDEX_ENTRY_SIZE: usize = 16;

/// Maps log offsets to byte positions in the segment's log file. Only every
/// Nth entry of the log is recorded; a binary search finds where to start
/// reading.
#[derive(Debug)]
pub struct SparseIndex {
    entries: Vec<(u64, u64)>,
    interval: u32,
}

#[verifier::ext_equal]
pub struct SparseIndexView {
    /// Offsets with byte positions, in the order in which they were recorded.
    pub entries: Seq<(u64, u64)>,
    /// Every how many log entries one is recorded.
    pub interval: u32,
}

impl View for SparseIndex {
    type V = SparseIndexView;

    closed spec fn view(&self) -> SparseIndexView {
        SparseIndexView { entries: self.entries@, interval: self.interval }
    }
}

/// The position behind the last entry with an offset of at most `target`.
pub open spec fn floor_position(entries: Seq<(u64, u64)>, target: u64) -> Option<u64>
    decreases entries.len(),
{
    if entries.len() == 0 {
        None
    } else if entries.last().0 <= target {
        Some(entries.last().1)
    } else {
        floor_position(entries.drop_last(), target)
    }
}

/// The offsets never decrease.
pub open spec fn offsets_sorted(entries: Seq<(u64, u64)>) -> bool {
    forall|i: int, j: int| 0 <= i <= j < entries.len() ==> entries[i].0 <= entries[j].0
}

/// The search may end between the entries `k - 1` and `k`.
pub open spec fn splits_at(entries: Seq<(u64, u64)>, target: u64, k: int) -> bool {
    &&& 0 <= k <= entries.len()
    &&& k > 0 ==> entries[k - 1].0 <= target
    &&& k < entries.len() ==> entries[k].0 > target
}

/// `r` is what a search that ends somewhere returns.
pub open spec fn search_result(entries: Seq<(u64, u64)>, target: u64, r: Option<u64>) -> bool {
    exists|k: int| #[trigger]
        splits_at(entries, target, k) && r == (if k == 0 {
            None
        } else {
            Some(entries[k - 1].1)
        })
}

/// The entries one after the other: offset, then position, of eight bytes each.
pub open spec fn index_encoding(entries: Seq<(u64, u64)>) -> Seq<u8>
    decreases entries.len(),
{
    if entries.len() == 0 {
        seq![]
    } else {
        index_encoding(entries.drop_last()) + le_bytes(entries.last().0 as nat, 8) + le_bytes(
            entries.last().1 as nat,
            8,
        )
    }
}

/// The entry in the sixteen bytes from `at`.
pub open spec fn index_entry_at(b: Seq<u8>, at: int) -> (u64, u64) {
    (le_value(b.subrange(at, at + 8)) as u64, le_value(b.subrange(at + 8, at + 16)) as u64)
}

/// The entries that an index file holds. A partial entry at its end does not
/// count.
pub open spec fn index_decoding(b: Seq<u8>) -> Seq<(u64, u64)> {
    Seq::new(b.len() / 16, |i: int| index_entry_at(b, 16 * i))
}

proof fn lemma_floor(entries: Seq<(u64, u64)>, target: u64, k: int)
    requires
        offsets_sorted(entries),
        splits_at(entries, target, k),
    ensures
        floor_position(entries, target) == (if k == 0 {
            None
        } else {
            Some(entries[k - 1].1)
        }),
    decreases entries.len(),
{
    if entries.len() > 0 && k < entries.len() {
        let rest = entries.drop_last();
        assert(entries.last().0 >= entries[k].0);
        assert(offsets_sorted(rest));
        assert(splits_at(rest, target, k));
        lemma_floor(rest, target, k);
    }
}

impl SparseIndex {
    /// An empty index.
    pub fn create(interval: u32) -> (r: Self)
        ensures
            r@ == (SparseIndexView { entries: seq![], interval }),
    {
        SparseIndex { entries: Vec::new(), interval }
    }

    /// The index in the bytes of an index file. A partial entry at the end is
    /// dropped.
    pub fn open(file: &[u8], interval: u32) -> (r: Self)
        ensures
            r@ == (SparseIndexView { entries: index_decoding(file@), interval }),
    {
        let mut entries: Vec<(u64, u64)> = Vec::new();
        let mut pos: usize = 0;
        let len: usize = file.len();
        while len - pos >= INDEX_ENTRY_SIZE
            invariant
                len == file@.len(),
                pos <= len,
                pos == 16 * entries@.len(),
                forall|i: int|
                    0 <= i < entries@.len() ==> #[trigger] entries@[i] == index_entry_at(
                        file@,
                        16 * i,
                    ),
            decreases len - pos,
        {
            proof {
                lemma_byte_range();
                lemma_le_value_bound(file@.subrange(pos as int, pos + 8));
                lemma_le_value_bound(file@.subrange(pos + 8, pos + 16));
            }
            let offset: u64 = read_u64(file, pos);
            let position: u64 = read_u64(file, pos + 8);
            entries.push((offset, position));
            pos = pos + INDEX_ENTRY_SIZE;
        }
        assert(entries@ =~= index_decoding(file@));
        SparseIndex { entries, interval }
    }

    /// Records where a log entry is. The caller decides which ones are
    /// recorded.
    pub fn append(&mut self, offset: u64, byte_position: u64)
        ensures
            final(self)@ == (SparseIndexView {
                entries: old(self)@.entries.push((offset, byte_position)),
                ..old(self)@
            }),
    {
        self.entries.push((offset, byte_position));
    }

    /// The bytes of the index file.
    pub fn encode(&self) -> (b: Vec<u8>)
        ensures
            b@ == index_encoding(self@.entries),
    {
        encode_marks(&self.entries)
    }

    /// Binary search for the largest recorded offset of at most
    /// `target_offset`. Returns the byte position to start reading from, or
    /// `None` where there is no such offset.
    pub fn lookup(&self, target_offset: u64) -> (r: Option<u64>)
        ensures
            offsets_sorted(self@.entries) ==> r == floor_position(self@.entries, target_offset),
            search_result(self@.entries, target_offset, r),
    {
        let mut lo: usize = 0;
        let mut hi: usize = self.entries.len();
        while lo < hi
            invariant
                lo <= hi <= self.entries@.len(),
                lo > 0 ==> self.entries@[lo - 1].0 <= target_offset,
                hi < self.entries@.len() ==> self.entries@[hi as int].0 > target_offset,
            decreases hi - lo,
        {
            let mid: usize = lo + (hi - lo) / 2;
            if self.entries[mid].0 <= target_offset {
                lo = mid + 1;
            } else {
                hi = mid;
            }
        }
        proof {
            assert(splits_at(self@.entries, target_offset, lo as int));
            if offsets_sorted(self@.entries) {
                lemma_floor(self@.entries, target_offset, lo as int);
            }
        }
        if lo == 0 {
            None
        } else {
            Some(self.entries[lo - 1].1)
        }
    }

    /// Every how many log entries one is recorded.
    pub fn interval(&self) -> (n: u32)
        ensures
            n == self@.interval,
    {
        self.interval
    }

    /// How many entries the index has.
    pub fn len(&self) -> (n: usize)
        ensures
            n == self@.entries.len(),
    {
        self.entries.len()
    }

    pub fn is_empty(&self) -> (b: bool)
        ensures
            b == (self@.entries.len() == 0),
    {
        self.entries.len() == 0
    }
}

/// The bytes of index entries.
pub fn encode_marks(marks: &Vec<(u64, u64)>) -> (b: Vec<u8>)
    ensures
        b@ == index_encoding(marks@),
{
    let mut b: Vec<u8> = Vec::new();
    let mut i: usize = 0;
    while i < marks.len()
        invariant
            i <= marks@.len(),
            b@ == index_encoding(marks@.take(i as int)),
        decreases marks@.len() - i,
    {
        append_u64(&mut b, marks[i].0);
        append_u64(&mut b, marks[i].1);
        i = i + 1;
        assert(marks@.take(i as int).drop_last() =~= marks@.take(i - 1));
    }
    assert(marks@.take(i as int) =~= marks@);
    b
}

/// What an index file is read back as is what was written, whatever was cut
/// off in the middle of an entry behind it.
pub proof fn law_index_round_trip(entries: Seq<(u64, u64)>, torn: Seq<u8>)
    requires
        torn.len() < 16,
    ensures
        index_decoding(index_encoding(entries) + torn) == entries,
{
    lemma_index_round_trip(entries, torn);
    assert(index_decoding(index_encoding(entries) + torn) =~= entries);
}

proof fn lemma_index_round_trip(entries: Seq<(u64, u64)>, tail: Seq<u8>)
    ensures
        index_encoding(entries).len() == 16 * entries.len(),
        forall|i: int|
            0 <= i < entries.len() ==> index_entry_at(index_encoding(entries) + tail, 16 * i)
                == #[trigger] entries[i],
    decreases entries.len(),
{
    if entries.len() > 0 {
        let rest = entries.drop_last();
        let e = entries.last();
        let last = le_bytes(e.0 as nat, 8) + le_bytes(e.1 as nat, 8);
        lemma_u64_round_trip(e.0);
        lemma_u64_round_trip(e.1);
        lemma_index_round_trip(rest, last + tail);
        let b = index_encoding(entries) + tail;
        assert(b =~= index_encoding(rest) + (last + tail));
        let at = (16 * rest.len()) as int;
        assert(b.subrange(at, at + 8) =~= le_bytes(e.0 as nat, 8));
        assert(b.subrange(at + 8, at + 16) =~= le_bytes(e.1 as nat, 8));
        assert forall|i: int| 0 <= i < entries.len() implies index_entry_at(b, 16 * i)
            == #[trigger] entries[i] by {
            if i < rest.len() {
                assert(rest[i] == entries[i]);
            }
        }
    }
}

} // verus!
