//! A log that is kept in memory and checks what is appended to it.
use vstd::prelude::*;

use crate::error::{IoFault, IoFaultKind, IoFaultView, XraftError, XraftErrorView};
use crate::log_entry::{entry_views, lemma_entry_views_push, LogEntry, LogEntryView};
use crate::segment_log::first_gap;
use crate::text::{append_decimal, decimal};
use crate::types::Offset;

verus! {

/// An in-memory log for tests and simulation. The entry at `offset` stands at
/// `offset - base_offset`; the base advances when a prefix is removed, as
/// after a snapshot was installed.
#[derive(Debug)]
pub struct MemoryLogStore {
    entries: Vec<LogEntry>,
    base_offset: u64,
}

#[verifier::ext_equal]
pub struct MemoryLogView {
    pub base_offset: u64,
    pub entries: Seq<LogEntryView>,
}

impl View for MemoryLogStore {
    type V = MemoryLogView;

    closed spec fn view(&self) -> MemoryLogView {
        MemoryLogView { base_offset: self.base_offset, entries: entry_views(self.entries@) }
    }
}

impl MemoryLogView {
    /// The offsets count up from the base.
    pub open spec fn wf(self) -> bool {
        forall|i: int|
            0 <= i < self.entries.len() ==> (#[trigger] self.entries[i]).offset == self.base_offset
                + i
    }

    /// The offset that the next entry gets.
    pub open spec fn next_offset(self) -> nat {
        self.base_offset as nat + self.entries.len()
    }

    /// Why entries cannot be appended, if they cannot.
    pub open spec fn complaint(self, more: Seq<LogEntryView>) -> Option<Seq<char>> {
        if more.len() == 0 {
            None
        } else if more[0].offset != self.next_offset() {
            Some(
                "non-contiguous append: expected offset "@ + decimal(self.next_offset())
                    + ", got "@ + decimal(more[0].offset as nat),
            )
        } else {
            match first_gap(more, 0) {
                Some(i) => Some(
                    "non-contiguous entries within batch: "@ + decimal(
                        more[i as int].offset as nat,
                    ) + " then "@ + decimal(more[i as int + 1].offset as nat),
                ),
                None => None,
            }
        }
    }

    /// The log with more entries behind the others.
    pub open spec fn with_more(self, more: Seq<LogEntryView>) -> Self {
        MemoryLogView { entries: self.entries + more, ..self }
    }

    /// The entry at an offset.
    pub open spec fn at(self, offset: u64) -> Option<LogEntryView> {
        if self.base_offset <= offset < self.next_offset() {
            Some(self.entries[offset - self.base_offset])
        } else {
            None
        }
    }

    /// The log without the entries from `from` on.
    pub open spec fn without_suffix(self, from: u64) -> Self {
        if from <= self.base_offset {
            MemoryLogView { entries: seq![], ..self }
        } else if from < self.next_offset() {
            MemoryLogView { entries: self.entries.take(from - self.base_offset), ..self }
        } else {
            self
        }
    }

    /// The log without the entries before `up_to`.
    pub open spec fn without_prefix(self, up_to: u64) -> Self {
        if up_to <= self.base_offset {
            self
        } else if up_to < self.next_offset() {
            MemoryLogView {
                base_offset: up_to,
                entries: self.entries.skip(up_to - self.base_offset),
            }
        } else {
            MemoryLogView { base_offset: up_to, entries: seq![] }
        }
    }
}

fn storage_error(message: String) -> (e: XraftError)
    ensures
        e@ == XraftErrorView::StorageError(
            IoFaultView { kind: IoFaultKind::Other, message: message@ },
        ),
{
    XraftError::StorageError(IoFault::new(IoFaultKind::Other, message))
}

impl MemoryLogStore {
    /// An empty log that starts at offset zero.
    pub fn new() -> (r: Self)
        ensures
            r@ == (MemoryLogView { base_offset: 0, entries: seq![] }),
            r@.wf(),
    {
        Self::with_base_offset(0)
    }

    /// An empty log that starts at `base_offset`.
    pub fn with_base_offset(base_offset: u64) -> (r: Self)
        ensures
            r@ == (MemoryLogView { base_offset, entries: seq![] }),
            r@.wf(),
    {
        let r = MemoryLogStore { entries: Vec::new(), base_offset };
        assert(r@.entries =~= seq![]);
        r
    }

    /// How many entries the log holds.
    pub fn len(&self) -> (n: usize)
        ensures
            n == self@.entries.len(),
    {
        self.entries.len()
    }

    pub fn is_empty(&self) -> (b: bool)
        ensures
            b == (self@.entries.len() == 0),
    {
        self.entries.len() == 0
    }

    /// Appends entries, which must continue the log without a gap.
    pub fn append(&mut self, entries: &[LogEntry]) -> (r: Result<(), XraftError>)
        requires
            old(self)@.wf(),
            entries@.len() > 0 ==> old(self)@.next_offset() <= u64::MAX,
        ensures
            r is Ok <==> old(self)@.complaint(entry_views(entries@)) is None,
            r matches Err(e) ==> final(self)@ == old(self)@ && e@ == XraftErrorView::StorageError(
                IoFaultView {
                    kind: IoFaultKind::Other,
                    message: old(self)@.complaint(entry_views(entries@))->0,
                },
            ),
            r is Ok ==> final(self)@ == old(self)@.with_more(entry_views(entries@)),
            final(self)@.wf(),
    {
        let ghost more = entry_views(entries@);
        let ghost before = self@;
        if entries.len() == 0 {
            assert(before.entries + more =~= before.entries);
            return Ok(());
        }
        assert(more[0] == entries@[0]@);
        assert(before.entries.len() == self.entries@.len());
        let n: usize = self.entries.len();
        let expected: u64 = if n > 0 {
            assert(before.entries[n - 1] == self.entries@[n - 1]@);
            self.entries[n - 1].offset + 1
        } else {
            self.base_offset
        };
        if entries[0].offset != expected {
            let mut m = String::from_str("non-contiguous append: expected offset ");
            append_decimal(&mut m, expected);
            m.append(", got ");
            append_decimal(&mut m, entries[0].offset);
            return Err(storage_error(m));
        }
        let mut i: usize = 0;
        while i < entries.len() - 1
            invariant
                i < entries@.len(),
                more == entry_views(entries@),
                before == self@,
                before == old(self)@,
                before.wf(),
                more[0].offset == expected,
                expected == before.next_offset(),
                forall|k: int| 0 <= k <= i ==> (#[trigger] more[k]).offset == expected + k,
                first_gap(more, 0) == first_gap(more, i as nat),
            decreases entries@.len() - i,
        {
            assert(more[i as int] == entries@[i as int]@);
            assert(more[i + 1] == entries@[i + 1]@);
            if entries[i].offset == u64::MAX || entries[i + 1].offset != entries[i].offset + 1 {
                let mut m = String::from_str("non-contiguous entries within batch: ");
                append_decimal(&mut m, entries[i].offset);
                m.append(" then ");
                append_decimal(&mut m, entries[i + 1].offset);
                return Err(storage_error(m));
            }
            i = i + 1;
        }
        let mut k: usize = 0;
        while k < entries.len()
            invariant
                k <= entries@.len(),
                more == entry_views(entries@),
                self@ == (MemoryLogView {
                    entries: before.entries + more.take(k as int),
                    ..before
                }),
            decreases entries@.len() - k,
        {
            let ghost prev = self.entries@;
            let e = entries[k].clone();
            proof {
                lemma_entry_views_push(prev, e);
            }
            self.entries.push(e);
            k = k + 1;
            assert(before.entries + more.take(k as int) =~= (before.entries + more.take(
                k - 1,
            )).push(more[k - 1]));
        }
        assert(more.take(k as int) =~= more);
        Ok(())
    }

    /// The entry at `offset`, if the log has it.
    pub fn read(&self, offset: Offset) -> (r: Result<Option<LogEntry>, XraftError>)
        ensures
            match self@.at(offset.0) {
                Some(e) => r matches Ok(Some(found)) && found@ == e,
                None => r == Ok::<Option<LogEntry>, XraftError>(None),
            },
    {
        assert(self@.entries.len() == self.entries@.len());
        if offset.0 < self.base_offset {
            return Ok(None);
        }
        let at: u64 = offset.0 - self.base_offset;
        if at < self.entries.len() as u64 {
            assert(self@.entries[at as int] == self.entries@[at as int]@);
            Ok(Some(self.entries[at as usize].clone()))
        } else {
            Ok(None)
        }
    }

    /// The offset of the last entry.
    pub fn last_offset(&self) -> (r: Result<Option<Offset>, XraftError>)
        ensures
            r == Ok::<Option<Offset>, XraftError>(
                if self@.entries.len() == 0 {
                    None
                } else {
                    Some(Offset(self@.entries.last().offset))
                },
            ),
    {
        let n: usize = self.entries.len();
        if n == 0 {
            Ok(None)
        } else {
            assert(self@.entries[n - 1] == self.entries@[n - 1]@);
            Ok(Some(Offset(self.entries[n - 1].offset)))
        }
    }

    /// Removes the entries from `from_offset` on.
    pub fn truncate_suffix(&mut self, from_offset: Offset) -> (r: Result<(), XraftError>)
        requires
            old(self)@.wf(),
        ensures
            r is Ok,
            final(self)@ == old(self)@.without_suffix(from_offset.0),
            final(self)@.wf(),
    {
        let ghost before = self@;
        assert(before.entries.len() == self.entries@.len());
        if from_offset.0 <= self.base_offset {
            self.entries.clear();
        } else {
            let at: u64 = from_offset.0 - self.base_offset;
            if at < self.entries.len() as u64 {
                self.entries.truncate(at as usize);
            }
        }
        assert(self@ =~= before.without_suffix(from_offset.0));
        assert(self@.wf());
        Ok(())
    }

    /// Removes the entries before `up_to_offset`; the log then starts there.
    pub fn truncate_prefix(&mut self, up_to_offset: Offset) -> (r: Result<(), XraftError>)
        requires
            old(self)@.wf(),
        ensures
            r is Ok,
            final(self)@ == old(self)@.without_prefix(up_to_offset.0),
            final(self)@.wf(),
    {
        let ghost before = self@;
        assert(before.entries.len() == self.entries@.len());
        if up_to_offset.0 <= self.base_offset {
            return Ok(());
        }
        let count: u64 = up_to_offset.0 - self.base_offset;
        if count < self.entries.len() as u64 {
            self.entries = self.entries.split_off(count as usize);
        } else {
            self.entries.clear();
        }
        self.base_offset = up_to_offset.0;
        assert(self@ =~= before.without_prefix(up_to_offset.0));
        assert(self@.wf());
        Ok(())
    }

    /// Does nothing: there is no disk.
    pub fn sync(&mut self) -> (r: Result<(), XraftError>)
        ensures
            r is Ok,
            *final(self) == *old(self),
    {
        Ok(())
    }
}

impl Default for MemoryLogStore {
    fn default() -> (r: Self)
        ensures
            r@ == (MemoryLogView { base_offset: 0, entries: seq![] }),
            r@.wf(),
    {
        Self::new()
    }
}

/// What remains after a suffix was removed can be read as before; what was
/// removed cannot.
pub proof fn law_truncation_splits(log: MemoryLogView, point: u64, offset: u64)
    requires
        log.wf(),
    ensures
        log.without_suffix(point).at(offset) == (if offset < point {
            log.at(offset)
        } else {
            None
        }),
        log.without_prefix(point).at(offset) == (if offset >= point {
            log.at(offset)
        } else {
            None
        }),
{
}

/// What was appended can be read.
pub proof fn law_append_then_read(log: MemoryLogView, more: Seq<LogEntryView>, i: int)
    requires
        log.wf(),
        log.complaint(more) is None,
        0 <= i < more.len(),
        log.next_offset() + i <= u64::MAX,
    ensures
        log.with_more(more).at((log.next_offset() + i) as u64) == Some(more[i]),
{
}

/// Entries are taken exactly if they continue the log without a gap; what was
/// there before is then read as before, and the log is longer by the entries.
pub proof fn law_append_continues_log(log: MemoryLogView, more: Seq<LogEntryView>, offset: u64)
    ensures
        log.complaint(more) is None <==> (forall|i: int|
            0 <= i < more.len() ==> (#[trigger] more[i]).offset == log.next_offset() + i),
        offset < log.next_offset() ==> log.with_more(more).at(offset) == log.at(offset),
        log.with_more(more).next_offset() == log.next_offset() + more.len(),
        log.with_more(more).base_offset == log.base_offset,
{
    if more.len() > 0 {
        crate::storage_laws::law_gap(more, 0);
        if log.complaint(more) is None {
            crate::storage_laws::lemma_no_gap_counts(more, log.next_offset());
        } else if forall|i: int|
            0 <= i < more.len() ==> (#[trigger] more[i]).offset == log.next_offset() + i {
            assert(more[0].offset == log.next_offset());
            let i = first_gap(more, 0)->0 as int;
            assert(more[i].offset == log.next_offset() + i);
            assert(more[i + 1].offset == log.next_offset() + i + 1);
        }
    }
}

/// Where the log starts and ends after a removal.
pub proof fn law_removal_moves_ends(log: MemoryLogView, point: u64)
    ensures
        log.without_suffix(point).base_offset == log.base_offset,
        log.base_offset <= point <= log.next_offset() ==> log.without_suffix(point).next_offset()
            == point,
        point > log.next_offset() ==> log.without_suffix(point) == log,
        point > log.base_offset ==> log.without_prefix(point).base_offset == point,
        point <= log.base_offset ==> log.without_prefix(point) == log,
        log.base_offset <= point <= log.next_offset() ==> log.without_prefix(point).next_offset()
            == log.next_offset(),
{
}

} // verus!
