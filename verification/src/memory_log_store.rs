//! A log that is kept in memory and can be made to misbehave.
//!
//! For tests: it is fast and deterministic, its writes can be made to fail, and
//! its entries can be overwritten.
use vstd::prelude::*;

use crate::error::{IoFault, IoFaultKind, IoFaultView, XraftError, XraftErrorView};
use crate::log_entry::{clone_entries, entry_views, lemma_entry_views_push, LogEntry, LogEntryView};
use crate::segment_log::first_gap;
use crate::text::{append_decimal, decimal};

verus! {

/// An in-memory log. The entry at `offset` stands at `offset - start_offset`.
#[derive(Debug)]
pub struct MemoryLogStore {
    entries: Vec<LogEntry>,
    start_offset: u64,
    fsync_fails: bool,
}

#[verifier::ext_equal]
pub struct MemoryLogStoreView {
    pub start_offset: u64,
    pub entries: Seq<LogEntryView>,
    /// Appends report a failure.
    pub fsync_fails: bool,
}

impl View for MemoryLogStore {
    type V = MemoryLogStoreView;

    closed spec fn view(&self) -> MemoryLogStoreView {
        MemoryLogStoreView {
            start_offset: self.start_offset,
            entries: entry_views(self.entries@),
            fsync_fails: self.fsync_fails,
        }
    }
}

impl MemoryLogStoreView {
    /// How far `offset` is from the start, counting offsets before it as the
    /// start.
    pub open spec fn distance(self, offset: u64) -> int {
        if offset < self.start_offset {
            0
        } else {
            offset - self.start_offset
        }
    }

    /// The offset that the next entry gets.
    pub open spec fn next_offset(self) -> nat {
        self.start_offset as nat + self.entries.len()
    }

    /// Why entries cannot be appended, if they cannot.
    pub open spec fn complaint(self, more: Seq<LogEntryView>) -> Option<Seq<char>> {
        if self.fsync_fails {
            Some("simulated fsync failure"@)
        } else if more.len() == 0 {
            None
        } else if more[0].offset != self.next_offset() {
            Some(
                "non-contiguous append: expected offset "@ + decimal(self.next_offset())
                    + ", got "@ + decimal(more[0].offset as nat),
            )
        } else {
            match first_gap(more, 0) {
                Some(i) => Some(
                    "non-contiguous entries within batch: "@ + decimal(
                        more[i as int].offset as nat,
                    ) + " then "@ + decimal(more[i as int + 1].offset as nat),
                ),
                None => None,
            }
        }
    }

    /// The entries from `start` to `end`, as far as the log has them.
    pub open spec fn range(self, start: u64, end: u64) -> Seq<LogEntryView> {
        let from = self.distance(start);
        let to = if self.distance(end) < self.entries.len() {
            self.distance(end)
        } else {
            self.entries.len() as int
        };
        if from > to {
            seq![]
        } else {
            self.entries.subrange(from, to)
        }
    }

    /// The log with more entries behind the others.
    pub open spec fn with_more(self, more: Seq<LogEntryView>) -> Self {
        MemoryLogStoreView { entries: self.entries + more, ..self }
    }

    /// The log with another entry at an offset that it has.
    pub open spec fn overwritten(self, offset: u64, e: LogEntryView) -> Self {
        if self.at(offset) is Some {
            MemoryLogStoreView {
                entries: self.entries.update(offset - self.start_offset, e),
                ..self
            }
        } else {
            self
        }
    }

    /// The entry at an offset.
    pub open spec fn at(self, offset: u64) -> Option<LogEntryView> {
        if self.start_offset <= offset < self.start_offset + self.entries.len() {
            Some(self.entries[offset - self.start_offset])
        } else {
            None
        }
    }

    /// The log without the entries from `from` on.
    pub open spec fn without_suffix(self, from: u64) -> Self {
        if self.distance(from) < self.entries.len() {
            MemoryLogStoreView { entries: self.entries.take(self.distance(from)), ..self }
        } else {
            self
        }
    }

    /// The log without the entries before `up_to`.
    pub open spec fn without_prefix(self, up_to: u64) -> Self {
        if up_to <= self.start_offset {
            self
        } else if self.distance(up_to) >= self.entries.len() {
            MemoryLogStoreView { start_offset: up_to, entries: seq![], ..self }
        } else {
            MemoryLogStoreView {
                start_offset: up_to,
                entries: self.entries.skip(self.distance(up_to)),
                ..self
            }
        }
    }
}

fn storage_error(message: String) -> (e: XraftError)
    ensures
        e@ == XraftErrorView::StorageError(
            IoFaultView { kind: IoFaultKind::Other, message: message@ },
        ),
{
    XraftError::StorageError(IoFault::new(IoFaultKind::Other, message))
}

impl MemoryLogStore {
    /// An empty log that starts at offset zero.
    pub fn new() -> (r: Self)
        ensures
            r@ == (MemoryLogStoreView { start_offset: 0, entries: seq![], fsync_fails: false }),
    {
        let r = MemoryLogStore { entries: Vec::new(), start_offset: 0, fsync_fails: false };
        assert(r@.entries =~= seq![]);
        r
    }

    /// Makes appends fail, or succeed again.
    pub fn set_fsync_failure(&mut self, fails: bool)
        ensures
            final(self)@ == (MemoryLogStoreView { fsync_fails: fails, ..old(self)@ }),
    {
        self.fsync_fails = fails;
    }

    /// A copy of all entries.
    pub fn entries(&self) -> (r: Vec<LogEntry>)
        ensures
            entry_views(r@) == self@.entries,
    {
        clone_entries(&self.entries)
    }

    /// Checks that entries continue the log without a gap.
    fn check_append(&self, entries: &[LogEntry]) -> (r: Result<(), XraftError>)
        requires
            !self@.fsync_fails && entries@.len() > 0 ==> self@.next_offset() <= u64::MAX,
        ensures
            r is Ok <==> self@.complaint(entry_views(entries@)) is None,
            r matches Err(e) ==> e@ == XraftErrorView::StorageError(
                IoFaultView {
                    kind: IoFaultKind::Other,
                    message: self@.complaint(entry_views(entries@))->0,
                },
            ),
    {
        if self.fsync_fails {
            return Err(storage_error(String::from_str("simulated fsync failure")));
        }
        if entries.len() == 0 {
            return Ok(());
        }
        let ghost more = entry_views(entries@);
        assert(more[0] == entries@[0]@);
        assert(self@.entries.len() == self.entries@.len());
        let expected: u64 = self.start_offset + self.entries.len() as u64;
        if entries[0].offset != expected {
            let mut m = String::from_str("non-contiguous append: expected offset ");
            append_decimal(&mut m, expected);
            m.append(", got ");
            append_decimal(&mut m, entries[0].offset);
            return Err(storage_error(m));
        }
        let mut i: usize = 0;
        while i < entries.len() - 1
            invariant
                i < entries@.len(),
                more == entry_views(entries@),
                !self@.fsync_fails,
                more[0].offset == expected,
                expected == self@.next_offset(),
                first_gap(more, 0) == first_gap(more, i as nat),
            decreases entries@.len() - i,
        {
            assert(more[i as int] == entries@[i as int]@);
            assert(more[i + 1] == entries@[i + 1]@);
            if entries[i].offset == u64::MAX || entries[i + 1].offset != entries[i].offset + 1 {
                let mut m = String::from_str("non-contiguous entries within batch: ");
                append_decimal(&mut m, entries[i].offset);
                m.append(" then ");
                append_decimal(&mut m, entries[i + 1].offset);
                return Err(storage_error(m));
            }
            i = i + 1;
        }
        Ok(())
    }

    /// Appends entries, which must continue the log without a gap.
    pub fn append_sync(&mut self, entries: &[LogEntry]) -> (r: Result<(), XraftError>)
        requires
            !old(self)@.fsync_fails && entries@.len() > 0 ==> old(self)@.next_offset() <= u64::MAX,
        ensures
            r is Ok <==> old(self)@.complaint(entry_views(entries@)) is None,
            r matches Err(e) ==> final(self)@ == old(self)@ && e@ == XraftErrorView::StorageError(
                IoFaultView {
                    kind: IoFaultKind::Other,
                    message: old(self)@.complaint(entry_views(entries@))->0,
                },
            ),
            r is Ok ==> final(self)@ == old(self)@.with_more(entry_views(entries@)),
    {
        match self.check_append(entries) {
            Err(e) => {
                return Err(e);
            },
            Ok(_) => {},
        }
        let ghost before = self@;
        let ghost more = entry_views(entries@);
        let mut i: usize = 0;
        assert(before.entries + more.take(0) =~= before.entries);
        while i < entries.len()
            invariant
                i <= entries@.len(),
                more == entry_views(entries@),
                self@ == (MemoryLogStoreView {
                    entries: before.entries + more.take(i as int),
                    ..before
                }),
            decreases entries@.len() - i,
        {
            let ghost prev = self.entries@;
            let e = entries[i].clone();
            proof {
                lemma_entry_views_push(prev, e);
            }
            self.entries.push(e);
            i = i + 1;
            assert(before.entries + more.take(i as int) =~= (before.entries + more.take(
                i - 1,
            )).push(more[i - 1]));
        }
        assert(more.take(i as int) =~= more);
        Ok(())
    }

    /// Copies of the entries from `start_offset` to `end_offset`, as far as
    /// the log has them.
    pub fn read_sync(&self, start_offset: u64, end_offset: u64) -> (r: Result<
        Vec<LogEntry>,
        XraftError,
    >)
        ensures
            r matches Ok(v) && entry_views(v@) == self@.range(start_offset, end_offset),
    {
        let len: u64 = self.entries.len() as u64;
        assert(self@.entries.len() == len);
        let start: u64 = start_offset.saturating_sub(self.start_offset);
        let end: u64 = end_offset.saturating_sub(self.start_offset);
        let end: u64 = if end < len {
            end
        } else {
            len
        };
        let mut r: Vec<LogEntry> = Vec::new();
        assert(entry_views(r@) =~= seq![]);
        if start > end {
            return Ok(r);
        }
        let mut i: usize = start as usize;
        while i < end as usize
            invariant
                start <= i <= end <= self.entries@.len(),
                entry_views(r@) == self@.entries.subrange(start as int, i as int),
            decreases end - i,
        {
            let ghost prev = r@;
            let e = self.entries[i].clone();
            proof {
                lemma_entry_views_push(prev, e);
                assert(self@.entries[i as int] == self.entries@[i as int]@);
            }
            r.push(e);
            i = i + 1;
            assert(self@.entries.subrange(start as int, i as int) =~= self@.entries.subrange(
                start as int,
                i - 1,
            ).push(self@.entries[i - 1]));
        }
        Ok(r)
    }

    /// The entry at `offset`, if the log has it.
    pub fn entry_at_sync(&self, offset: u64) -> (r: Result<Option<LogEntry>, XraftError>)
        ensures
            match self@.at(offset) {
                Some(e) => r matches Ok(Some(found)) && found@ == e,
                None => r == Ok::<Option<LogEntry>, XraftError>(None),
            },
    {
        assert(self@.entries.len() == self.entries@.len());
        if offset < self.start_offset {
            return Ok(None);
        }
        let at: u64 = offset - self.start_offset;
        if at < self.entries.len() as u64 {
            assert(self@.entries[at as int] == self.entries@[at as int]@);
            Ok(Some(self.entries[at as usize].clone()))
        } else {
            Ok(None)
        }
    }

    /// Removes the entries from `from_offset` on.
    pub fn truncate_suffix_sync(&mut self, from_offset: u64) -> (r: Result<(), XraftError>)
        ensures
            r is Ok,
            final(self)@ == old(self)@.without_suffix(from_offset),
    {
        let ghost before = self@;
        assert(before.entries.len() == self.entries@.len());
        if from_offset <= self.start_offset {
            self.entries.clear();
        } else {
            let at: u64 = from_offset - self.start_offset;
            if at < self.entries.len() as u64 {
                self.entries.truncate(at as usize);
            }
        }
        assert(self@ =~= before.without_suffix(from_offset));
        Ok(())
    }

    /// Removes the entries before `up_to_offset`; the log then starts there.
    pub fn truncate_prefix_sync(&mut self, up_to_offset: u64) -> (r: Result<(), XraftError>)
        ensures
            r is Ok,
            final(self)@ == old(self)@.without_prefix(up_to_offset),
    {
        let ghost before = self@;
        assert(before.entries.len() == self.entries@.len());
        if up_to_offset <= self.start_offset {
            return Ok(());
        }
        let count: u64 = up_to_offset - self.start_offset;
        if count >= self.entries.len() as u64 {
            self.entries.clear();
        } else {
            self.entries = self.entries.split_off(count as usize);
        }
        self.start_offset = up_to_offset;
        assert(self@ =~= before.without_prefix(up_to_offset));
        Ok(())
    }

    /// Puts another entry in the place of the one at `offset`, if there is
    /// one.
    pub fn overwrite_entry(&mut self, offset: u64, entry: LogEntry)
        requires
            offset >= old(self)@.start_offset,
        ensures
            final(self)@ == old(self)@.overwritten(offset, entry@),
    {
        let ghost before = self@;
        assert(before.entries.len() == self.entries@.len());
        let at: u64 = offset - self.start_offset;
        if at < self.entries.len() as u64 {
            self.entries.set(at as usize, entry);
            assert(self@.entries =~= before.entries.update(at as int, entry@));
        }
    }

    /// The offset of the first entry.
    pub fn log_start_offset(&self) -> (n: u64)
        ensures
            n == self@.start_offset,
    {
        self.start_offset
    }

    /// The offset behind the last entry.
    pub fn log_end_offset(&self) -> (n: u64)
        requires
            self@.next_offset() <= u64::MAX,
        ensures
            n == self@.next_offset(),
    {
        assert(self@.entries.len() == self.entries@.len());
        self.start_offset + self.entries.len() as u64
    }
}

impl Default for MemoryLogStore {
    fn default() -> (r: Self)
        ensures
            r@ == (MemoryLogStoreView { start_offset: 0, entries: seq![], fsync_fails: false }),
    {
        Self::new()
    }
}

/// What was appended can be read, and what was there before is still read.
pub proof fn law_append_then_read(
    log: MemoryLogStoreView,
    more: Seq<LogEntryView>,
    start: u64,
    end: u64,
)
    requires
        log.complaint(more) is None,
        log.next_offset() + more.len() <= u64::MAX,
    ensures
        ({
            let after = log.with_more(more);
            &&& start == log.next_offset() && end == start + more.len() ==> after.range(start, end)
                == more
            &&& end <= log.next_offset() ==> after.range(start, end) == log.range(start, end)
        }),
{
    let after = log.with_more(more);
    if start == log.next_offset() && end == start + more.len() {
        assert(after.range(start, end) =~= more);
    }
    if end <= log.next_offset() {
        assert(after.range(start, end) =~= log.range(start, end));
    }
}

/// What remains after a suffix or a prefix was removed can be read as before;
/// what was removed cannot.
pub proof fn law_truncation_splits(log: MemoryLogStoreView, point: u64, offset: u64)
    ensures
        log.without_suffix(point).at(offset) == (if offset < point {
            log.at(offset)
        } else {
            None
        }),
        log.without_prefix(point).at(offset) == (if offset >= point {
            log.at(offset)
        } else {
            None
        }),
{
}

/// Entries are taken exactly if appends do not fail and the entries continue the
/// log without a gap; the log is then longer by them.
pub proof fn law_append_continues_log(log: MemoryLogStoreView, more: Seq<LogEntryView>)
    ensures
        log.complaint(more) is None <==> !log.fsync_fails && (forall|i: int|
            0 <= i < more.len() ==> (#[trigger] more[i]).offset == log.next_offset() + i),
        log.with_more(more).next_offset() == log.next_offset() + more.len(),
        log.with_more(more).start_offset == log.start_offset,
        log.with_more(more).fsync_fails == log.fsync_fails,
{
    if more.len() > 0 && !log.fsync_fails {
        crate::storage_laws::law_gap(more, 0);
        if log.complaint(more) is None {
            crate::storage_laws::lemma_no_gap_counts(more, log.next_offset());
        } else if forall|i: int|
            0 <= i < more.len() ==> (#[trigger] more[i]).offset == log.next_offset() + i {
            assert(more[0].offset == log.next_offset());
            let i = first_gap(more, 0)->0 as int;
            assert(more[i].offset == log.next_offset() + i);
            assert(more[i + 1].offset == log.next_offset() + i + 1);
        }
    }
}

/// A read of a range gives one after the other what the log has at the offsets
/// of the range, and nothing for the others.
pub proof fn law_range_reads_each(log: MemoryLogStoreView, start: u64, end: u64)
    requires
        log.next_offset() <= u64::MAX,
    ensures
        ({
            let from = if start < log.start_offset {
                log.start_offset as int
            } else {
                start as int
            };
            let to = if end < log.next_offset() {
                end as int
            } else {
                log.next_offset() as int
            };
            &&& from < to ==> log.range(start, end).len() == to - from
            &&& from >= to ==> log.range(start, end).len() == 0
            &&& forall|i: int|
                0 <= i < log.range(start, end).len() ==> log.at((from + i) as u64) == Some(
                    #[trigger] log.range(start, end)[i],
                )
        }),
{
}

/// Overwriting changes the entry at its offset alone, and only where there is
/// one.
pub proof fn law_overwrite_replaces(
    log: MemoryLogStoreView,
    offset: u64,
    e: LogEntryView,
    other: u64,
)
    ensures
        ({
            let after = log.overwritten(offset, e);
            &&& other != offset ==> after.at(other) == log.at(other)
            &&& log.at(offset) is Some ==> after.at(offset) == Some(e)
            &&& log.at(offset) is None ==> after == log
            &&& after.next_offset() == log.next_offset() && after.start_offset
                == log.start_offset
        }),
{
}

/// Where the log starts and ends after a removal.
pub proof fn law_removal_moves_ends(log: MemoryLogStoreView, point: u64)
    ensures
        log.without_suffix(point).start_offset == log.start_offset,
        log.start_offset <= point <= log.next_offset() ==> log.without_suffix(point).next_offset()
            == point,
        point > log.next_offset() ==> log.without_suffix(point) == log,
        point > log.start_offset ==> log.without_prefix(point).start_offset == point,
        point <= log.start_offset ==> log.without_prefix(point) == log,
        log.start_offset <= point <= log.next_offset() ==> log.without_prefix(point).next_offset()
            == log.next_offset(),
{
}

} // verus!
