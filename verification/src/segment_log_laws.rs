//! What the segment log promises: what was appended is read back, across
//! segments and after the log was opened again; the log is in step with its
//! files after every single write; and damage costs the entries behind it, never
//! those before.
use vstd::prelude::*;

use crate::codec::lemma_le_bytes_len;
use crate::log_entry::LogEntryView;
use crate::segment::{
    encodings, frames_size, front_count, front_frames, front_valid, lemma_frame_entries_len,
    lemma_frames_len, lemma_frames_push, lemma_frames_size_prefix, lemma_marks_sorted,
    segment_name, stored_entries, valid_len, ReadOutcome, SegmentView, MAX_BATCH_DATA,
};
use crate::segment_laws::{
    batch_fits, between, damage, law_append_adds_entries, law_fresh_holds_nothing,
    law_open_restores, law_read_before_damage, law_read_reports_damage, law_read_returns_stored,
    lemma_between_concat, lemma_between_empty, lemma_prefix_holds, numbered,
};
use crate::segment_log::{
    batch_count, entry_reads_as, lemma_batch_count, lemma_found_segment, lemma_suffix_size, linked,
    log_extension, must_roll, named_offset, planned, read_segments, LogWriteView, SegmentFileView,
    SegmentLogConfig, SegmentLogView,
};
use crate::text::{all_digits, lemma_decimal_nonempty, lemma_padding_round_trip, parsed_number};

verus! {

/// The log together with the log files of its segments.
#[verifier::ext_equal]
pub struct LogState {
    pub log: SegmentLogView,
    pub files: Seq<Seq<u8>>,
}

/// The entries of all files in order.
pub open spec fn contents(files: Seq<Seq<u8>>) -> Seq<LogEntryView>
    decreases files.len(),
{
    if files.len() == 0 {
        seq![]
    } else {
        stored_entries(files[0]) + contents(files.skip(1))
    }
}

impl LogState {
    /// The segment at `i` and its file are in step.
    pub open spec fn pair_holds(self, i: int) -> bool {
        &&& self.log.segments[i].holds(self.files[i])
        &&& self.log.segments[i].index.interval == self.log.config.index_interval
    }

    /// The log and its files are in step.
    pub open spec fn holds(self) -> bool {
        &&& self.log.segments.len() == self.files.len()
        &&& self.files.len() > 0
        &&& forall|i: int| 0 <= i < self.files.len() ==> #[trigger] self.pair_holds(i)
        &&& self.log.chained()
    }

    /// After a write to the files, and to the log.
    pub open spec fn after_write(self, w: LogWriteView) -> Self {
        LogState {
            log: self.log.applied(w),
            files: match w {
                LogWriteView::Roll { base_offset } => self.files.push(seq![]),
                LogWriteView::Append(b) => self.files.update(
                    self.files.len() - 1,
                    self.files.last() + b.bytes,
                ),
            },
        }
    }

    /// After a list of writes.
    pub open spec fn after_writes(self, writes: Seq<LogWriteView>) -> Self
        decreases writes.len(),
    {
        if writes.len() == 0 {
            self
        } else {
            self.after_write(writes[0]).after_writes(writes.skip(1))
        }
    }

    /// Each write can be applied, goes to the end of a file, and leaves the
    /// log and its files in step.
    pub open spec fn safe(self, writes: Seq<LogWriteView>) -> bool
        decreases writes.len(),
    {
        &&& self.holds()
        &&& writes.len() > 0 ==> {
            &&& self.log.accepts(writes[0])
            &&& writes[0] matches LogWriteView::Append(b) ==> b.position == self.files.last().len()
            &&& self.after_write(writes[0]).safe(writes.skip(1))
        }
    }

    /// The writes that append entries.
    pub open spec fn writes(self, entries: Seq<LogEntryView>) -> Seq<LogWriteView> {
        planned(self.log.segments.last().cursor(), self.log.config, encodings(entries))
    }

    /// The entries continue the log, and the batches they are written in are
    /// such as a reader accepts.
    pub open spec fn can_append(self, entries: Seq<LogEntryView>) -> bool {
        &&& numbered(entries, self.log.end_offset() as nat)
        &&& self.log.end_offset() + entries.len() <= u64::MAX
        &&& batches_fit(self.writes(entries))
    }

    /// After entries were appended.
    pub open spec fn appended(self, entries: Seq<LogEntryView>) -> Self {
        self.after_writes(self.writes(entries))
    }

    /// One append after the other is possible.
    pub open spec fn can_append_all(self, appends: Seq<Seq<LogEntryView>>) -> bool
        decreases appends.len(),
    {
        appends.len() > 0 ==> {
            &&& self.can_append(appends[0])
            &&& self.appended(appends[0]).can_append_all(appends.skip(1))
        }
    }

    /// After one append after the other.
    pub open spec fn appended_all(self, appends: Seq<Seq<LogEntryView>>) -> Self
        decreases appends.len(),
    {
        if appends.len() == 0 {
            self
        } else {
            self.appended(appends[0]).appended_all(appends.skip(1))
        }
    }

    /// The entries of one append after the other can be written.
    pub open spec fn can_write_all(self, appends: Seq<Seq<LogEntryView>>) -> bool
        decreases appends.len(),
    {
        appends.len() > 0 ==> {
            &&& self.can_write(appends[0])
            &&& self.appended(appends[0]).can_write_all(appends.skip(1))
        }
    }

    /// The entries can be written: their offsets fit, and the size of each
    /// batch fits its length field. Whether a reader accepts batches of that
    /// size does not matter.
    pub open spec fn can_write(self, entries: Seq<LogEntryView>) -> bool {
        &&& self.log.end_offset() + entries.len() <= u64::MAX
        &&& batches_writable(self.writes(entries))
    }

    /// The segment at `i` knows how large its file is, and the file is within
    /// the size limit, or the segment has a single entry.
    pub open spec fn file_within_limit(self, i: int) -> bool {
        let seg = self.log.segments[i];
        &&& self.files[i].len() == seg.file_size
        &&& seg.base_offset <= seg.next_offset
        &&& seg.file_size == 0 ==> seg.next_offset == seg.base_offset
        &&& self.files[i].len() <= self.log.config.max_segment_size || seg.next_offset
            - seg.base_offset == 1
    }

    /// Every file is within the size limit, or its segment has a single
    /// entry, and each segment starts where the one before ends.
    pub open spec fn within_limit(self) -> bool {
        &&& self.log.segments.len() == self.files.len()
        &&& self.files.len() > 0
        &&& forall|i: int| 0 <= i < self.files.len() ==> #[trigger] self.file_within_limit(i)
        &&& self.log.chained()
    }

    /// A log that was never written to, with its one empty file.
    pub open spec fn new(config: SegmentLogConfig) -> Self {
        LogState {
            log: SegmentLogView::unopened(config).with_first(),
            files: seq![seq![]],
        }
    }

    /// For each segment that a read looks at, its log file from the read
    /// position on.
    pub open spec fn tails(self, start: u64, end: u64) -> Seq<Seq<u8>> {
        tails_of(self.log, self.files, start, end)
    }

    /// Reading the entries from `start` to `end`.
    pub open spec fn read(self, start: u64, end: u64) -> ReadOutcome {
        self.log.read_tails(self.tails(start, end), start, end)
    }
}

/// For each segment that a read looks at, the part of the file at its place
/// that the read is given.
pub open spec fn tails_of(
    log: SegmentLogView,
    files: Seq<Seq<u8>>,
    start: u64,
    end: u64,
) -> Seq<Seq<u8>> {
    match log.segment_range(start, end) {
        None => seq![],
        Some((from, to)) => Seq::new(
            (to - from + 1) as nat,
            |i: int| files[from + i].skip(log.segments[from + i].read_position(start) as int),
        ),
    }
}

/// The write is not of a batch larger than what a reader accepts.
pub open spec fn write_fits(w: LogWriteView) -> bool {
    w matches LogWriteView::Append(b) ==> b.bytes.len() <= MAX_BATCH_DATA + 4
}

/// The write is not of a batch whose size is more than its length field can
/// say.
pub open spec fn write_writable(w: LogWriteView) -> bool {
    w matches LogWriteView::Append(b) ==> b.bytes.len() <= u32::MAX + 4
}

/// No write is of a batch whose size is more than its length field can say.
pub open spec fn batches_writable(writes: Seq<LogWriteView>) -> bool {
    forall|i: int| 0 <= i < writes.len() ==> write_writable(#[trigger] writes[i])
}

/// No write is of a batch larger than what a reader accepts.
pub open spec fn batches_fit(writes: Seq<LogWriteView>) -> bool {
    forall|i: int| 0 <= i < writes.len() ==> write_fits(#[trigger] writes[i])
}

// ---------------------------------------------------------------------------
// Contents
// ---------------------------------------------------------------------------
proof fn lemma_contents_push(files: Seq<Seq<u8>>, file: Seq<u8>)
    ensures
        contents(files.push(file)) == contents(files) + stored_entries(file),
    decreases files.len(),
{
    if files.len() == 0 {
        assert(files.push(file).skip(1) =~= files);
        assert(contents(files.push(file)) =~= contents(files) + stored_entries(file));
    } else {
        assert(files.push(file).skip(1) =~= files.skip(1).push(file));
        lemma_contents_push(files.skip(1), file);
        assert(contents(files.push(file)) =~= contents(files) + stored_entries(file));
    }
}

/// The offsets of a log count up from its start to its end.
pub proof fn law_contents_numbered(s: LogState)
    requires
        s.holds(),
    ensures
        numbered(contents(s.files), s.log.start_offset() as nat),
        s.log.start_offset() + contents(s.files).len() == s.log.end_offset(),
    decreases s.files.len(),
{
    let last = s.files.len() - 1;
    assert(s.pair_holds(last));
    assert(s.files =~= s.files.drop_last().push(s.files.last()));
    lemma_contents_push(s.files.drop_last(), s.files.last());
    let all = contents(s.files);
    if last > 0 {
        let before = LogState {
            log: SegmentLogView { segments: s.log.segments.drop_last(), ..s.log },
            files: s.files.drop_last(),
        };
        assert forall|i: int| 0 <= i < before.files.len() implies #[trigger] before.pair_holds(
            i,
        ) by {
            assert(s.pair_holds(i));
        }
        assert forall|i: int| 0 < i < before.log.segments.len() implies #[trigger] linked(
            before.log.segments,
            i,
        ) by {
            assert(linked(s.log.segments, i));
        }
        law_contents_numbered(before);
        assert(linked(s.log.segments, last));
        let n = contents(before.files).len();
        assert forall|i: int| 0 <= i < all.len() implies (#[trigger] all[i]).offset
            == s.log.start_offset() + i by {
            if i < n {
                assert(all[i] == contents(before.files)[i]);
            } else {
                assert(all[i] == stored_entries(s.files.last())[i - n]);
            }
        }
    } else {
        assert(s.files.drop_last().len() == 0);
        assert(all =~= stored_entries(s.files.last()));
    }
}

// ---------------------------------------------------------------------------
// Reading
// ---------------------------------------------------------------------------
/// The entries asked for in the files from `lo` to below `hi`.
spec fn gathered(files: Seq<Seq<u8>>, lo: int, hi: int, start: u64, end: u64) -> Seq<LogEntryView>
    decreases hi - lo,
{
    if lo >= hi {
        seq![]
    } else {
        between(stored_entries(files[lo]), start, end) + gathered(files, lo + 1, hi, start, end)
    }
}

proof fn lemma_gathered_split(
    files: Seq<Seq<u8>>,
    lo: int,
    mid: int,
    hi: int,
    start: u64,
    end: u64,
)
    requires
        lo <= mid <= hi,
    ensures
        gathered(files, lo, hi, start, end) == gathered(files, lo, mid, start, end) + gathered(
            files,
            mid,
            hi,
            start,
            end,
        ),
    decreases mid - lo,
{
    if lo < mid {
        lemma_gathered_split(files, lo + 1, mid, hi, start, end);
    }
    assert(gathered(files, lo, hi, start, end) =~= gathered(files, lo, mid, start, end) + gathered(
        files,
        mid,
        hi,
        start,
        end,
    ));
}

proof fn lemma_gathered_empty(files: Seq<Seq<u8>>, lo: int, hi: int, start: u64, end: u64)
    requires
        forall|i: int|
            lo <= i < hi ==> between(#[trigger] stored_entries(files[i]), start, end) == Seq::<
                LogEntryView,
            >::empty(),
    ensures
        gathered(files, lo, hi, start, end) == Seq::<LogEntryView>::empty(),
    decreases hi - lo,
{
    if lo < hi {
        lemma_gathered_empty(files, lo + 1, hi, start, end);
        assert(between(stored_entries(files[lo]), start, end) == Seq::<LogEntryView>::empty());
    }
}

proof fn lemma_contents_gathered(files: Seq<Seq<u8>>, k: int, start: u64, end: u64)
    requires
        0 <= k <= files.len(),
    ensures
        between(contents(files.skip(k)), start, end) == gathered(
            files,
            k,
            files.len() as int,
            start,
            end,
        ),
    decreases files.len() - k,
{
    if k < files.len() {
        assert(files.skip(k).skip(1) =~= files.skip(k + 1));
        lemma_contents_gathered(files, k + 1, start, end);
        lemma_between_concat(stored_entries(files[k]), contents(files.skip(k + 1)), start, end);
    } else {
        lemma_between_empty(contents(files.skip(k)), start, end);
    }
}

/// The segments from `lo` to below `mid` are read one after the other, where
/// each file gives what its segment asks for.
proof fn lemma_read_gathered(
    s: LogState,
    disk: Seq<Seq<u8>>,
    start: u64,
    end: u64,
    from: nat,
    to: nat,
    lo: int,
    mid: int,
    acc: Seq<LogEntryView>,
)
    requires
        s.log.segment_range(start, end) == Some((from, to)),
        from <= lo <= mid <= to + 1 <= s.log.segments.len(),
        forall|i: int|
            lo <= i < mid ==> (#[trigger] s.log.segments[i]).read_file(disk[i], start, end)
                == ReadOutcome::Entries(between(stored_entries(s.files[i]), start, end)),
    ensures
        ({
            let segs = s.log.segments.subrange(from as int, to as int + 1);
            let tails = tails_of(s.log, disk, start, end);
            read_segments(segs.skip(lo - from), tails.skip(lo - from), start, end, acc)
                == read_segments(
                segs.skip(mid - from),
                tails.skip(mid - from),
                start,
                end,
                acc + gathered(s.files, lo, mid, start, end),
            )
        }),
    decreases mid - lo,
{
    let segs = s.log.segments.subrange(from as int, to as int + 1);
    let tails = tails_of(s.log, disk, start, end);
    let i = lo - from;
    if lo < mid {
        assert(segs.skip(i)[0] == s.log.segments[lo]);
        assert(tails.skip(i)[0] == disk[lo].skip(
            s.log.segments[lo].read_position(start) as int,
        ));
        assert(s.log.segments[lo].read_file(disk[lo], start, end) == ReadOutcome::Entries(
            between(stored_entries(s.files[lo]), start, end),
        ));
        let found = between(stored_entries(s.files[lo]), start, end);
        assert(segs.skip(i).skip(1) =~= segs.skip(i + 1));
        assert(tails.skip(i).skip(1) =~= tails.skip(i + 1));
        lemma_read_gathered(s, disk, start, end, from, to, lo + 1, mid, acc + found);
        assert((acc + found) + gathered(s.files, lo + 1, mid, start, end) =~= acc + gathered(
            s.files,
            lo,
            mid,
            start,
            end,
        ));
    } else {
        assert(acc + gathered(s.files, lo, mid, start, end) =~= acc);
    }
}

/// The segments that a read looks at, and what the others hold.
proof fn lemma_range(s: LogState, start: u64, end: u64)
    requires
        s.holds(),
        start < end,
    ensures
        match s.log.segment_range(start, end) {
            None => between(contents(s.files), start, end) == Seq::<LogEntryView>::empty()
                && forall|i: int|
                0 <= i < s.files.len() ==> (#[trigger] s.log.segments[i]).base_offset >= end,
            Some((from, to)) => {
                &&& from <= to < s.files.len()
                &&& from == 0 || s.log.segments[from as int].base_offset <= start
                &&& forall|i: int|
                    from < i < s.files.len() ==> (#[trigger] s.log.segments[i]).base_offset > start
                &&& forall|i: int|
                    to < i < s.files.len() ==> (#[trigger] s.log.segments[i]).base_offset >= end
                &&& between(contents(s.files), start, end) == gathered(
                    s.files,
                    from as int,
                    to as int + 1,
                    start,
                    end,
                )
            },
        },
{
    let all = contents(s.files);
    let segs = s.log.segments;
    let n = s.files.len() as int;
    lemma_found_segment(segs, start);
    lemma_found_segment(segs, (end - 1) as u64);
    let (from, to) = match s.log.segment_range(start, end) {
        None => (0int, -1int),
        Some((from, to)) => (from as int, to as int),
    };
    assert forall|i: int| 0 <= i < from implies between(
        #[trigger] stored_entries(s.files[i]),
        start,
        end,
    ) == Seq::<LogEntryView>::empty() by {
        assert(s.pair_holds(i));
        lemma_bases(s, i, from);
        lemma_between_empty(stored_entries(s.files[i]), start, end);
    }
    assert forall|i: int| to + 1 <= i < n implies between(
        #[trigger] stored_entries(s.files[i]),
        start,
        end,
    ) == Seq::<LogEntryView>::empty() by {
        assert(s.pair_holds(i));
        assert(segs[i].base_offset > end - 1);
        lemma_between_empty(stored_entries(s.files[i]), start, end);
    }
    lemma_gathered_empty(s.files, 0, from, start, end);
    lemma_gathered_empty(s.files, to + 1, n, start, end);
    lemma_contents_gathered(s.files, 0, start, end);
    assert(s.files.skip(0) =~= s.files);
    if s.log.segment_range(start, end) is Some {
        assert(from <= to) by {
            if from > 0 {
                assert(segs[from].base_offset <= end - 1);
            }
        }
        lemma_gathered_split(s.files, 0, from, n, start, end);
        lemma_gathered_split(s.files, from, to + 1, n, start, end);
        assert(gathered(s.files, 0, n, start, end) =~= gathered(
            s.files,
            from,
            to + 1,
            start,
            end,
        ));
    }
}

/// A read of files that give each segment what it asks for.
#[verifier::rlimit(60)]
#[verifier::spinoff_prover]
proof fn lemma_read_disk(s: LogState, disk: Seq<Seq<u8>>, start: u64, end: u64)
    requires
        s.holds(),
        forall|i: int|
            0 <= i < s.files.len() && s.log.segments[i].base_offset < end ==> (
            #[trigger] s.log.segments[i]).read_file(disk[i], start, end) == ReadOutcome::Entries(
                between(stored_entries(s.files[i]), start, end),
            ),
    ensures
        s.log.read_tails(tails_of(s.log, disk, start, end), start, end) == ReadOutcome::Entries(
            between(contents(s.files), start, end),
        ),
{
    let segs = s.log.segments;
    if start >= end {
        lemma_between_empty(contents(s.files), start, end);
    } else {
        lemma_range(s, start, end);
        if s.log.segment_range(start, end) is Some {
            let (from, to) = s.log.segment_range(start, end)->0;
            let looked = segs.subrange(from as int, to as int + 1);
            let tails = tails_of(s.log, disk, start, end);
            lemma_found_segment(segs, (end - 1) as u64);
            assert forall|i: int| from <= i < to + 1 implies (
            #[trigger] segs[i]).base_offset < end by {
                if i < to {
                    lemma_bases(s, i, to as int);
                    assert(s.pair_holds(i));
                }
            }
            lemma_read_gathered(s, disk, start, end, from, to, from as int, to as int + 1, seq![]);
            assert(looked.skip(0) =~= looked);
            assert(tails.skip(0) =~= tails);
            assert(seq![] + gathered(s.files, from as int, to as int + 1, start, end) =~= gathered(
                s.files,
                from as int,
                to as int + 1,
                start,
                end,
            ));
        }
    }
}

/// A read gives exactly the entries with the offsets asked for, however they
/// are spread over segments, and whether or not the log has all of them.
pub proof fn law_log_read_returns_contents(s: LogState, start: u64, end: u64)
    requires
        s.holds(),
    ensures
        s.read(start, end) == ReadOutcome::Entries(between(contents(s.files), start, end)),
{
    assert forall|i: int| 0 <= i < s.files.len() implies (#[trigger] s.log.segments[i]).read_file(
        s.files[i],
        start,
        end,
    ) == ReadOutcome::Entries(between(stored_entries(s.files[i]), start, end)) by {
        assert(s.pair_holds(i));
        law_read_returns_stored(s.log.segments[i], s.files[i], start, end);
    }
    lemma_read_disk(s, s.files, start, end);
}

/// A damaged batch does not matter to a read that ends before its entries:
/// whatever stands in file `j` behind the undamaged batches `good`, the read
/// gives exactly the entries asked for.
pub proof fn law_log_read_before_damage(
    s: LogState,
    j: int,
    good: Seq<u8>,
    lost: Seq<u8>,
    bad: Seq<u8>,
    start: u64,
    end: u64,
)
    requires
        s.holds(),
        0 <= j < s.files.len(),
        s.files[j] == good + lost,
        valid_len(good) == good.len(),
        end <= s.log.segments[j].base_offset + stored_entries(good).len(),
    ensures
        s.log.read_tails(
            tails_of(s.log, s.files.update(j, good + bad), start, end),
            start,
            end,
        ) == ReadOutcome::Entries(between(contents(s.files), start, end)),
{
    let disk = s.files.update(j, good + bad);
    assert forall|i: int| 0 <= i < s.files.len() implies (#[trigger] s.log.segments[i]).read_file(
        disk[i],
        start,
        end,
    ) == ReadOutcome::Entries(between(stored_entries(s.files[i]), start, end)) by {
        assert(s.pair_holds(i));
        if i == j {
            law_read_before_damage(s.log.segments[i], good, lost, bad, start, end);
        } else {
            law_read_returns_stored(s.log.segments[i], s.files[i], start, end);
        }
    }
    lemma_read_disk(s, disk, start, end);
}

/// A read that needs an entry of a damaged batch, and none behind that batch
/// alone, reports the damage and where in its file it is.
pub proof fn law_log_read_reports_damage(
    s: LogState,
    j: int,
    good: Seq<u8>,
    lost: Seq<u8>,
    bad: Seq<u8>,
    start: u64,
    end: u64,
)
    requires
        s.holds(),
        0 <= j < s.files.len(),
        s.files[j] == good + lost,
        valid_len(good) == good.len(),
        front_valid(lost),
        front_count(lost) > 0,
        bad.len() >= 4,
        damage(bad) is Some,
        start <= s.log.segments[j].base_offset + stored_entries(good).len() < end,
    ensures
        s.log.read_tails(
            tails_of(s.log, s.files.update(j, good + bad), start, end),
            start,
            end,
        ) == (ReadOutcome::Faulty { fault: damage(bad)->0, at: good.len() }),
{
    let disk = s.files.update(j, good + bad);
    let segs = s.log.segments;
    lemma_range(s, start, end);
    lemma_found_segment(segs, start);
    lemma_found_segment(segs, (end - 1) as u64);
    assert(s.pair_holds(j));
    lemma_prefix_holds(segs[j], good, lost);
    lemma_frame_entries_len(front_frames(lost), front_count(lost));
    assert(segs[j].base_offset < end);
    let (from, to) = s.log.segment_range(start, end)->0;
    assert(from <= j) by {
        if j < from {
            lemma_bases(s, j, from as int);
        }
    }
    assert(j <= to);
    assert forall|i: int| from <= i < j implies (#[trigger] segs[i]).read_file(disk[i], start, end)
        == ReadOutcome::Entries(between(stored_entries(s.files[i]), start, end)) by {
        assert(s.pair_holds(i));
        law_read_returns_stored(segs[i], s.files[i], start, end);
    }
    lemma_read_gathered(s, disk, start, end, from, to, from as int, j, seq![]);
    law_read_reports_damage(segs[j], good, lost, bad, start, end);
    let looked = segs.subrange(from as int, to as int + 1);
    let tails = tails_of(s.log, disk, start, end);
    assert(looked.skip(0) =~= looked);
    assert(tails.skip(0) =~= tails);
    assert(looked.skip(j - from)[0] == segs[j]);
    assert(tails.skip(j - from)[0] == disk[j].skip(segs[j].read_position(start) as int));
}

/// A segment ends before a later one starts.
proof fn lemma_bases(s: LogState, i: int, j: int)
    requires
        s.holds(),
        0 <= i < j < s.files.len(),
    ensures
        s.log.segments[i].next_offset <= s.log.segments[j].base_offset,
    decreases j - i,
{
    assert(linked(s.log.segments, j));
    if i < j - 1 {
        lemma_bases(s, i, j - 1);
        assert(s.pair_holds(j - 1));
    }
}

// ---------------------------------------------------------------------------
// Appending
// ---------------------------------------------------------------------------
proof fn lemma_encodings_skip(entries: Seq<LogEntryView>, n: int)
    requires
        0 <= n <= entries.len(),
    ensures
        encodings(entries).take(n) == encodings(entries.take(n)),
        encodings(entries).skip(n) == encodings(entries.skip(n)),
{
    assert(encodings(entries).take(n) =~= encodings(entries.take(n)));
    assert(encodings(entries).skip(n) =~= encodings(entries.skip(n)));
}

proof fn lemma_roll_safe(s: LogState)
    requires
        s.holds(),
    ensures
        ({
            let w = LogWriteView::Roll { base_offset: s.log.end_offset() };
            let t = s.after_write(w);
            &&& t.holds()
            &&& contents(t.files) == contents(s.files)
            &&& t.log.end_offset() == s.log.end_offset()
        }),
{
    let w = LogWriteView::Roll { base_offset: s.log.end_offset() };
    let t = s.after_write(w);
    let n = s.files.len() as int;
    law_fresh_holds_nothing(s.log.end_offset(), s.log.config.index_interval);
    assert forall|i: int| 0 <= i < t.files.len() implies #[trigger] t.pair_holds(i) by {
        if i < n {
            assert(s.pair_holds(i));
        }
    }
    assert forall|i: int| 0 < i < t.log.segments.len() implies #[trigger] linked(
        t.log.segments,
        i,
    ) by {
        if i < n {
            assert(linked(s.log.segments, i));
        }
    }
    lemma_contents_push(s.files, seq![]);
    assert(contents(t.files) =~= contents(s.files));
}

proof fn lemma_append_safe(s: LogState, entries: Seq<LogEntryView>)
    requires
        s.holds(),
        entries.len() > 0,
        numbered(entries, s.log.end_offset() as nat),
        batch_fits(entries),
        s.log.end_offset() + entries.len() <= u64::MAX,
        s.files.last().len() + 12 + frames_size(encodings(entries)) <= u64::MAX,
    ensures
        ({
            let b = s.log.segments.last().batch_write(encodings(entries));
            let w = LogWriteView::Append(b);
            let t = s.after_write(w);
            &&& s.log.accepts(w)
            &&& b.position == s.files.last().len()
            &&& t.holds()
            &&& contents(t.files) == contents(s.files) + entries
            &&& t.log.end_offset() == s.log.end_offset() + entries.len()
            &&& t.log.segments.last() == s.log.segments.last().committed(b)
        }),
{
    let last = s.files.len() - 1;
    let seg = s.log.segments[last];
    let datas = encodings(entries);
    let b = seg.batch_write(datas);
    let w = LogWriteView::Append(b);
    let t = s.after_write(w);
    assert(s.pair_holds(last));
    lemma_frames_len(datas);
    law_append_adds_entries(seg, s.files[last], entries);
    lemma_marks_sorted(
        seg.base_offset,
        seg.index.interval,
        seg.next_offset as nat,
        datas.len(),
        seg.file_size as nat,
    );
    assert forall|i: int| 0 <= i < t.files.len() implies #[trigger] t.pair_holds(i) by {
        assert(s.pair_holds(i));
    }
    assert forall|i: int| 0 < i < t.log.segments.len() implies #[trigger] linked(
        t.log.segments,
        i,
    ) by {
        assert(linked(s.log.segments, i));
    }
    let before = s.files.drop_last();
    assert(s.files =~= before.push(s.files.last()));
    assert(t.files =~= before.push(s.files.last() + b.bytes));
    lemma_contents_push(before, s.files.last());
    lemma_contents_push(before, s.files.last() + b.bytes);
    assert(contents(t.files) =~= contents(s.files) + entries);
}

/// Carrying out a planned append adds the entries to the end of the log. After
/// every single write the log and its files are in step, so a failure in
/// between leaves a log that holds what was written so far.
pub proof fn law_append_adds_to_log(s: LogState, entries: Seq<LogEntryView>)
    requires
        s.holds(),
        s.can_append(entries),
    ensures
        ({
            let t = s.appended(entries);
            &&& s.safe(s.writes(entries))
            &&& t.holds()
            &&& contents(t.files) == contents(s.files) + entries
            &&& t.log.start_offset() == s.log.start_offset()
            &&& t.log.end_offset() == s.log.end_offset() + entries.len()
            &&& t.log.config == s.log.config
        }),
    decreases entries.len(),
{
    let active = s.log.segments.last();
    let config = s.log.config;
    let datas = encodings(entries);
    let writes = s.writes(entries);
    assert(s.pair_holds(s.files.len() - 1));
    if entries.len() == 0 {
        assert(contents(s.files) + entries =~= contents(s.files));
    } else {
        let max = config.max_segment_size as nat;
        let roll = must_roll(active.file_size as nat, max, datas[0]);
        let rolled = LogWriteView::Roll { base_offset: active.next_offset };
        let s1 = if roll {
            s.after_write(rolled)
        } else {
            s
        };
        if roll {
            lemma_roll_safe(s);
        }
        assert(s1.pair_holds(s1.files.len() - 1));
        let seg = s1.log.segments.last();
        let n = batch_count(seg.file_size as nat, max, datas, 1);
        lemma_batch_count(seg.file_size as nat, max, datas, 1);
        lemma_encodings_skip(entries, n as int);
        let part = entries.take(n as int);
        let rest = entries.skip(n as int);
        assert(datas.take(1) =~= Seq::<Seq<u8>>::empty().push(datas[0]));
        lemma_frames_push(Seq::<Seq<u8>>::empty(), datas[0]);
        lemma_frames_len(datas.take(n as int));
        assert(numbered(part, s1.log.end_offset() as nat)) by {
            assert forall|i: int| 0 <= i < part.len() implies (#[trigger] part[i]).offset
                == s.log.end_offset() + i by {
                assert(part[i] == entries[i]);
            }
        }
        let b = seg.batch_write(encodings(part));
        let s2 = s1.after_write(LogWriteView::Append(b));
        let cursor = if roll {
            SegmentView::fresh(active.next_offset, config.index_interval)
        } else {
            active.cursor()
        };
        assert(cursor.batch_write(datas.take(n as int)) == b);
        let later = planned(cursor.committed(b).cursor(), config, encodings(rest));
        let batch = seq![LogWriteView::Append(b)] + later;
        let ahead: int = if roll {
            1
        } else {
            0
        };
        assert(writes =~= if roll {
            seq![rolled] + batch
        } else {
            batch
        });
        assert(writes[ahead] == LogWriteView::Append(b));
        assert(write_fits(writes[ahead]));
        assert(batch_fits(part));
        lemma_append_safe(s1, part);
        assert(cursor.committed(b).cursor() =~= s2.log.segments.last().cursor());
        assert(later == s2.writes(rest));
        assert(batches_fit(later)) by {
            assert forall|i: int| 0 <= i < later.len() implies write_fits(#[trigger] later[i]) by {
                assert(later[i] == writes[ahead + 1 + i]);
            }
        }
        assert(numbered(rest, s2.log.end_offset() as nat)) by {
            assert forall|i: int| 0 <= i < rest.len() implies (#[trigger] rest[i]).offset
                == s2.log.end_offset() + i by {
                assert(rest[i] == entries[n + i]);
            }
        }
        law_append_adds_to_log(s2, rest);
        assert(batch.skip(1) =~= later);
        if roll {
            assert(writes.skip(1) =~= batch);
            assert(s1.after_writes(batch) == s2.after_writes(later));
            assert(s1.safe(batch));
        }
        assert((contents(s.files) + part) + rest =~= contents(s.files) + entries);
    }
}

/// What was appended is read back: after an append, a read of the new offsets
/// gives the entries.
pub proof fn law_append_then_read(s: LogState, entries: Seq<LogEntryView>)
    requires
        s.holds(),
        s.can_append(entries),
    ensures
        s.appended(entries).read(
            s.log.end_offset(),
            (s.log.end_offset() + entries.len()) as u64,
        ) == ReadOutcome::Entries(entries),
{
    let start = s.log.end_offset();
    let end = (start + entries.len()) as u64;
    law_append_adds_to_log(s, entries);
    law_contents_numbered(s);
    law_log_read_returns_contents(s.appended(entries), start, end);
    let old_entries = contents(s.files);
    lemma_between_concat(old_entries, entries, start, end);
    lemma_between_empty(old_entries, start, end);
    lemma_between_all(entries, start, end);
    assert(between(old_entries + entries, start, end) =~= entries);
}

/// What was in the log before is read as before: after an append, a read that
/// ends within the old log gives what it gave before the append.
pub proof fn law_append_keeps_reads(
    s: LogState,
    entries: Seq<LogEntryView>,
    start: u64,
    end: u64,
)
    requires
        s.holds(),
        s.can_append(entries),
        end <= s.log.end_offset(),
    ensures
        s.appended(entries).read(start, end) == s.read(start, end),
{
    law_append_adds_to_log(s, entries);
    law_log_read_returns_contents(s, start, end);
    law_log_read_returns_contents(s.appended(entries), start, end);
    lemma_between_concat(contents(s.files), entries, start, end);
    lemma_between_empty(entries, start, end);
    assert(between(contents(s.files) + entries, start, end) =~= between(
        contents(s.files),
        start,
        end,
    ));
}

/// The batches of an append are such as a reader accepts where the whole append
/// is, or where each entry is and the segments are limited to that size.
pub proof fn law_small_batches_fit(
    active: SegmentView,
    config: SegmentLogConfig,
    datas: Seq<Seq<u8>>,
)
    requires
        8 + frames_size(datas) <= MAX_BATCH_DATA || (config.max_segment_size <= MAX_BATCH_DATA + 4
            && forall|i: int|
            0 <= i < datas.len() ==> 12 + (#[trigger] datas[i]).len() <= MAX_BATCH_DATA),
    ensures
        batches_fit(planned(active, config, datas)),
    decreases datas.len(),
{
    if datas.len() > 0 {
        let max = config.max_segment_size as nat;
        let roll = must_roll(active.file_size as nat, max, datas[0]);
        let seg = if roll {
            SegmentView::fresh(active.next_offset, config.index_interval)
        } else {
            active
        };
        lemma_batch_count(seg.file_size as nat, max, datas, 1);
        let n = batch_count(seg.file_size as nat, max, datas, 1);
        let w = seg.batch_write(datas.take(n as int));
        let next = seg.committed(w).cursor();
        let rest = planned(next, config, datas.skip(n as int));
        assert(datas.take(1) =~= Seq::<Seq<u8>>::empty().push(datas[0]));
        lemma_frames_push(Seq::<Seq<u8>>::empty(), datas[0]);
        lemma_frames_len(datas.take(n as int));
        lemma_frames_size_prefix(datas, n as int);
        lemma_suffix_size(datas, n as int);
        assert forall|i: int| 0 <= i < datas.skip(n as int).len() implies (
        #[trigger] datas.skip(n as int)[i]) == datas[n + i] by {}
        law_small_batches_fit(next, config, datas.skip(n as int));
        assert(write_fits(LogWriteView::Append(w)));
        let writes = planned(active, config, datas);
        let ahead: int = if roll {
            1
        } else {
            0
        };
        assert forall|i: int| 0 <= i < writes.len() implies write_fits(#[trigger] writes[i]) by {
            if i > ahead {
                assert(writes[i] == rest[i - ahead - 1]);
            } else if i == ahead {
                assert(writes[i] == LogWriteView::Append(w));
            } else {
                assert(writes[i] == LogWriteView::Roll { base_offset: active.next_offset });
            }
        }
    }
}

proof fn lemma_between_all(entries: Seq<LogEntryView>, start: u64, end: u64)
    requires
        forall|i: int| 0 <= i < entries.len() ==> start <= (#[trigger] entries[i]).offset < end,
    ensures
        between(entries, start, end) == entries,
    decreases entries.len(),
{
    reveal(Seq::filter);
    if entries.len() > 0 {
        let rest = entries.drop_last();
        assert forall|i: int| 0 <= i < rest.len() implies start <= (
        #[trigger] rest[i]).offset < end by {
            assert(rest[i] == entries[i]);
        }
        lemma_between_all(rest, start, end);
        assert(entries.last() == entries[entries.len() - 1]);
        assert(rest.push(entries.last()) =~= entries);
    }
}

proof fn lemma_appends(s: LogState, appends: Seq<Seq<LogEntryView>>)
    requires
        s.holds(),
        s.can_append_all(appends),
    ensures
        ({
            let t = s.appended_all(appends);
            &&& t.holds()
            &&& t.log.config == s.log.config
            &&& t.log.start_offset() == s.log.start_offset()
            &&& contents(t.files) == contents(s.files) + appends.flatten()
        }),
    decreases appends.len(),
{
    if appends.len() > 0 {
        law_append_adds_to_log(s, appends[0]);
        lemma_appends(s.appended(appends[0]), appends.skip(1));
        assert(appends.drop_first() =~= appends.skip(1));
        assert(contents(s.files) + appends.flatten() =~= (contents(s.files) + appends[0])
            + appends.skip(1).flatten());
    } else {
        assert(contents(s.files) + appends.flatten() =~= contents(s.files));
    }
}

/// After any series of appends to a new log, the log is in step with its files,
/// starts at offset zero, and holds exactly what was appended, in order.
pub proof fn law_appends_are_kept(config: SegmentLogConfig, appends: Seq<Seq<LogEntryView>>)
    requires
        LogState::new(config).can_append_all(appends),
    ensures
        ({
            let t = LogState::new(config).appended_all(appends);
            &&& t.holds()
            &&& contents(t.files) == appends.flatten()
            &&& t.log.start_offset() == 0
            &&& t.log.end_offset() == appends.flatten().len()
        }),
{
    let s = LogState::new(config);
    law_new_log_is_empty(config);
    lemma_appends(s, appends);
    assert(contents(s.files) + appends.flatten() =~= appends.flatten());
    law_contents_numbered(s.appended_all(appends));
}

// ---------------------------------------------------------------------------
// The size of files
// ---------------------------------------------------------------------------
proof fn lemma_roll_limit(s: LogState)
    requires
        s.within_limit(),
    ensures
        s.after_write(LogWriteView::Roll { base_offset: s.log.end_offset() }).within_limit(),
{
    let t = s.after_write(LogWriteView::Roll { base_offset: s.log.end_offset() });
    let n = s.files.len() as int;
    assert forall|i: int| 0 <= i < t.files.len() implies #[trigger] t.file_within_limit(i) by {
        if i < n {
            assert(s.file_within_limit(i));
        }
    }
    assert forall|i: int| 0 < i < t.log.segments.len() implies #[trigger] linked(
        t.log.segments,
        i,
    ) by {
        if i < n {
            assert(linked(s.log.segments, i));
        }
    }
}

proof fn lemma_write_limit(s: LogState, datas: Seq<Seq<u8>>)
    requires
        s.within_limit(),
        datas.len() > 0,
        s.log.end_offset() + datas.len() <= u64::MAX,
        12 + frames_size(datas) <= u32::MAX + 4,
        s.files.last().len() + 12 + frames_size(datas) <= s.log.config.max_segment_size || (
        s.files.last().len() == 0 && datas.len() == 1),
    ensures
        ({
            let b = s.log.segments.last().batch_write(datas);
            let t = s.after_write(LogWriteView::Append(b));
            &&& t.within_limit()
            &&& t.log.end_offset() == s.log.end_offset() + datas.len()
            &&& t.log.segments.last() == s.log.segments.last().committed(b)
            &&& s.log.segments.last().file_size + b.size <= u64::MAX
        }),
{
    let last = s.files.len() - 1;
    let seg = s.log.segments[last];
    let b = seg.batch_write(datas);
    let t = s.after_write(LogWriteView::Append(b));
    lemma_frames_len(datas);
    lemma_le_bytes_len((datas.len() as u32) as nat, 4);
    assert(b.size == b.bytes.len());
    assert(s.file_within_limit(last));
    assert(t.files[last].len() == s.files[last].len() + b.bytes.len());
    assert forall|i: int| 0 <= i < t.files.len() implies #[trigger] t.file_within_limit(i) by {
        assert(s.file_within_limit(i));
    }
    assert forall|i: int| 0 < i < t.log.segments.len() implies #[trigger] linked(
        t.log.segments,
        i,
    ) by {
        assert(linked(s.log.segments, i));
    }
}

/// An append keeps every file within the size limit, but for such as belong to
/// a segment with a single entry, and keeps each segment where the one before
/// ends. It makes the log longer by its entries.
pub proof fn law_append_keeps_limit(s: LogState, entries: Seq<LogEntryView>)
    requires
        s.within_limit(),
        s.can_write(entries),
    ensures
        ({
            let t = s.appended(entries);
            &&& t.within_limit()
            &&& t.log.config == s.log.config
            &&& t.log.start_offset() == s.log.start_offset()
            &&& t.log.end_offset() == s.log.end_offset() + entries.len()
        }),
    decreases entries.len(),
{
    let active = s.log.segments.last();
    let config = s.log.config;
    let datas = encodings(entries);
    let writes = s.writes(entries);
    assert(s.file_within_limit(s.files.len() - 1));
    if entries.len() > 0 {
        let max = config.max_segment_size as nat;
        let roll = must_roll(active.file_size as nat, max, datas[0]);
        let rolled = LogWriteView::Roll { base_offset: active.next_offset };
        let s1 = if roll {
            s.after_write(rolled)
        } else {
            s
        };
        if roll {
            lemma_roll_limit(s);
        }
        assert(s1.file_within_limit(s1.files.len() - 1));
        let seg = s1.log.segments.last();
        let n = batch_count(seg.file_size as nat, max, datas, 1);
        lemma_batch_count(seg.file_size as nat, max, datas, 1);
        lemma_encodings_skip(entries, n as int);
        let rest = entries.skip(n as int);
        let part = datas.take(n as int);
        assert(datas.take(1) =~= Seq::<Seq<u8>>::empty().push(datas[0]));
        lemma_frames_push(Seq::<Seq<u8>>::empty(), datas[0]);
        lemma_frames_len(part);
        let b = seg.batch_write(part);
        let s2 = s1.after_write(LogWriteView::Append(b));
        let cursor = if roll {
            SegmentView::fresh(active.next_offset, config.index_interval)
        } else {
            active.cursor()
        };
        assert(cursor.batch_write(part) == b);
        let later = planned(cursor.committed(b).cursor(), config, encodings(rest));
        let batch = seq![LogWriteView::Append(b)] + later;
        let ahead: int = if roll {
            1
        } else {
            0
        };
        assert(writes =~= if roll {
            seq![rolled] + batch
        } else {
            batch
        });
        assert(writes[ahead] == LogWriteView::Append(b));
        assert(write_writable(writes[ahead]));
        lemma_write_limit(s1, part);
        assert(cursor.committed(b).cursor() =~= s2.log.segments.last().cursor());
        assert(later == s2.writes(rest));
        assert(batches_writable(later)) by {
            assert forall|i: int| 0 <= i < later.len() implies write_writable(
                #[trigger] later[i],
            ) by {
                assert(later[i] == writes[ahead + 1 + i]);
            }
        }
        law_append_keeps_limit(s2, rest);
        assert(batch.skip(1) =~= later);
        if roll {
            assert(writes.skip(1) =~= batch);
            assert(s1.after_writes(batch) == s2.after_writes(later));
        }
    }
}

proof fn lemma_appends_limit(s: LogState, appends: Seq<Seq<LogEntryView>>)
    requires
        s.within_limit(),
        s.can_write_all(appends),
    ensures
        ({
            let t = s.appended_all(appends);
            &&& t.within_limit()
            &&& t.log.config == s.log.config
            &&& t.log.start_offset() == s.log.start_offset()
            &&& t.log.end_offset() == s.log.end_offset() + appends.flatten().len()
        }),
    decreases appends.len(),
{
    if appends.len() > 0 {
        law_append_keeps_limit(s, appends[0]);
        lemma_appends_limit(s.appended(appends[0]), appends.skip(1));
        assert(appends.drop_first() =~= appends.skip(1));
    }
}

/// After any series of appends to a new log, every file is within the size
/// limit, or its segment has exactly one entry. The first segment starts at
/// zero, each other one where the one before ends, and the last one ends behind
/// the last entry, so that no offset is missing or there twice.
pub proof fn law_size_limit(config: SegmentLogConfig, appends: Seq<Seq<LogEntryView>>, i: int)
    requires
        LogState::new(config).can_write_all(appends),
        0 <= i < LogState::new(config).appended_all(appends).files.len(),
    ensures
        ({
            let t = LogState::new(config).appended_all(appends);
            let seg = t.log.segments[i];
            &&& t.files[i].len() == seg.file_size
            &&& t.files[i].len() <= config.max_segment_size || seg.next_offset - seg.base_offset
                == 1
            &&& i == 0 ==> seg.base_offset == 0
            &&& i > 0 ==> seg.base_offset == t.log.segments[i - 1].next_offset
            &&& i == t.files.len() - 1 ==> seg.next_offset == appends.flatten().len()
        }),
{
    let s = LogState::new(config);
    let t = s.appended_all(appends);
    assert(s.file_within_limit(0));
    lemma_appends_limit(s, appends);
    assert(t.file_within_limit(i));
    assert(i > 0 ==> linked(t.log.segments, i));
}

// ---------------------------------------------------------------------------
// Opening
// ---------------------------------------------------------------------------
/// The file on disk is that of the segment at `base`: it holds the batches
/// `kept`, and what follows them is no undamaged batch.
pub open spec fn keeps(file: SegmentFileView, base: u64, kept: Seq<u8>) -> bool {
    &&& file.base_offset == base
    &&& kept.is_prefix_of(file.content)
    &&& !front_valid(file.content.skip(kept.len() as int))
}

/// The files from `lo` to below `hi` are opened one after the other.
proof fn lemma_open_rest(s: LogState, disk: Seq<SegmentFileView>, lo: int, hi: int)
    requires
        s.holds(),
        0 <= lo <= hi <= s.files.len(),
        hi <= disk.len(),
        forall|i: int|
            lo <= i < hi ==> keeps(
                #[trigger] disk[i],
                s.log.segments[i].base_offset,
                s.files[i],
            ),
    ensures
        (SegmentLogView { segments: s.log.segments.take(lo), ..s.log }).opened_all(disk.skip(lo))
            == (SegmentLogView { segments: s.log.segments.take(hi), ..s.log }).opened_all(
            disk.skip(hi),
        ),
    decreases hi - lo,
{
    let partial = SegmentLogView { segments: s.log.segments.take(lo), ..s.log };
    if lo < hi {
        assert(s.pair_holds(lo));
        let seg = s.log.segments[lo];
        let file = disk.skip(lo)[0];
        assert(file == disk[lo]);
        if lo > 0 {
            assert(linked(s.log.segments, lo));
        }
        assert(partial.continued_by(seg.base_offset));
        let torn = file.content.skip(s.files[lo].len() as int);
        law_open_restores(seg, s.files[lo], torn);
        assert(s.files[lo] + torn =~= file.content);
        let next = SegmentLogView { segments: s.log.segments.take(lo + 1), ..s.log };
        assert(partial.opened(file.base_offset, file.content) =~= next);
        assert(disk.skip(lo).skip(1) =~= disk.skip(lo + 1));
        lemma_open_rest(s, disk, lo + 1, hi);
    }
}

/// Opening the files of a log gives the log back, with all entries, whatever
/// torn or damaged batch was left behind the entries of a file.
pub proof fn law_reopen_restores_log(s: LogState, disk: Seq<SegmentFileView>)
    requires
        s.holds(),
        disk.len() == s.files.len(),
        forall|i: int|
            0 <= i < disk.len() ==> keeps(
                #[trigger] disk[i],
                s.log.segments[i].base_offset,
                s.files[i],
            ),
    ensures
        SegmentLogView::unopened(s.log.config).opened_all(disk) == s.log,
{
    let n = disk.len() as int;
    lemma_open_rest(s, disk, 0, n);
    let start = SegmentLogView { segments: s.log.segments.take(0), ..s.log };
    assert(start =~= SegmentLogView::unopened(s.log.config));
    assert(disk.skip(0) =~= disk);
    assert(disk.skip(n).len() == 0);
    assert(SegmentLogView { segments: s.log.segments.take(n), ..s.log } =~= s.log);
}

/// Opening the files of a log of which some were damaged gives the entries
/// before the first damage, and no others. File `j` is the first to have lost
/// entries: it still holds the batches `good`, and what follows them is no
/// undamaged batch. The segments before it are as they were, it is recovered up
/// to the damage, and all later files are dropped, whatever they hold. Reads
/// of the log then give exactly the entries before the damage.
pub proof fn law_reopen_after_damage(
    s: LogState,
    disk: Seq<SegmentFileView>,
    j: int,
    good: Seq<u8>,
    lost: Seq<u8>,
    start: u64,
    end: u64,
)
    requires
        s.holds(),
        disk.len() == s.files.len(),
        0 <= j < disk.len(),
        forall|i: int|
            0 <= i < j ==> keeps(#[trigger] disk[i], s.log.segments[i].base_offset, s.files[i]),
        s.files[j] == good + lost,
        valid_len(good) == good.len(),
        stored_entries(lost).len() > 0,
        keeps(disk[j], s.log.segments[j].base_offset, good),
        forall|i: int|
            j < i < disk.len() ==> (#[trigger] disk[i]).base_offset
                == s.log.segments[i].base_offset,
    ensures
        ({
            let opened = SegmentLogView::unopened(s.log.config).opened_all(disk);
            let t = LogState { log: opened, files: s.files.take(j).push(good) };
            let before = contents(s.files.take(j)).len() + stored_entries(good).len();
            &&& opened.segments == s.log.segments.take(j).push(
                SegmentView::recovered(
                    s.log.segments[j].base_offset,
                    s.log.config.index_interval,
                    disk[j].content,
                ),
            )
            &&& t.holds()
            &&& contents(t.files) == contents(s.files).take(before as int)
            &&& before < contents(s.files).len()
            &&& opened.start_offset() == s.log.start_offset()
            &&& opened.end_offset() == s.log.start_offset() + before
            &&& t.read(start, end) == ReadOutcome::Entries(between(contents(t.files), start, end))
        }),
{
    let opened = SegmentLogView::unopened(s.log.config).opened_all(disk);
    let t = LogState { log: opened, files: s.files.take(j).push(good) };
    lemma_damaged_segment(s, disk[j], j, good, lost);
    lemma_opened_cut(s, disk, j, good, lost);
    lemma_cut_holds(s, j, good, lost);
    lemma_cut_contents(s.files, j, good, lost);
    law_contents_numbered(t);
    law_log_read_returns_contents(t, start, end);
}

/// The log up to segment `j`, which is that of the file `good`.
spec fn cut_log(s: LogState, j: int, good: Seq<u8>) -> SegmentLogView {
    SegmentLogView {
        segments: s.log.segments.take(j).push(
            SegmentView::recovered(
                s.log.segments[j].base_offset,
                s.log.config.index_interval,
                good,
            ),
        ),
        ..s.log
    }
}

/// The segment of a file that lost entries ends before the next one starts.
proof fn lemma_damaged_segment(
    s: LogState,
    file: SegmentFileView,
    j: int,
    good: Seq<u8>,
    lost: Seq<u8>,
)
    requires
        s.holds(),
        0 <= j < s.files.len(),
        s.files[j] == good + lost,
        valid_len(good) == good.len(),
        stored_entries(lost).len() > 0,
        keeps(file, s.log.segments[j].base_offset, good),
    ensures
        ({
            let seg = s.log.segments[j];
            let cut = SegmentView::recovered(
                seg.base_offset,
                s.log.config.index_interval,
                good,
            );
            &&& cut.holds(good)
            &&& cut.next_offset < seg.next_offset
            &&& cut == SegmentView::recovered(
                seg.base_offset,
                s.log.config.index_interval,
                file.content,
            )
            &&& stored_entries(good + lost) == stored_entries(good) + stored_entries(lost)
        }),
{
    let seg = s.log.segments[j];
    let cut = SegmentView::recovered(seg.base_offset, s.log.config.index_interval, good);
    let torn = file.content.skip(good.len() as int);
    assert(s.pair_holds(j));
    lemma_prefix_holds(seg, good, lost);
    law_open_restores(cut, good, torn);
    assert(good + torn =~= file.content);
}

/// Opening ends with the damaged file.
proof fn lemma_opened_cut(
    s: LogState,
    disk: Seq<SegmentFileView>,
    j: int,
    good: Seq<u8>,
    lost: Seq<u8>,
)
    requires
        s.holds(),
        disk.len() == s.files.len(),
        0 <= j < disk.len(),
        forall|i: int|
            0 <= i < j ==> keeps(#[trigger] disk[i], s.log.segments[i].base_offset, s.files[i]),
        s.files[j] == good + lost,
        valid_len(good) == good.len(),
        stored_entries(lost).len() > 0,
        keeps(disk[j], s.log.segments[j].base_offset, good),
        forall|i: int|
            j < i < disk.len() ==> (#[trigger] disk[i]).base_offset
                == s.log.segments[i].base_offset,
    ensures
        SegmentLogView::unopened(s.log.config).opened_all(disk) == cut_log(s, j, good),
{
    let base = s.log.segments[j].base_offset;
    lemma_damaged_segment(s, disk[j], j, good, lost);
    lemma_open_rest(s, disk, 0, j);
    let first = SegmentLogView { segments: s.log.segments.take(0), ..s.log };
    assert(first =~= SegmentLogView::unopened(s.log.config));
    assert(disk.skip(0) =~= disk);
    let partial = SegmentLogView { segments: s.log.segments.take(j), ..s.log };
    let ended = cut_log(s, j, good);
    if j > 0 {
        assert(linked(s.log.segments, j));
    }
    assert(disk.skip(j)[0] == disk[j]);
    assert(partial.continued_by(base));
    assert(partial.opened(base, disk[j].content) =~= ended);
    assert(disk.skip(j).skip(1) =~= disk.skip(j + 1));
    if j + 1 < disk.len() {
        assert(linked(s.log.segments, j + 1));
        assert(disk.skip(j + 1)[0] == disk[j + 1]);
        assert(!ended.continued_by(disk[j + 1].base_offset));
    }
    assert(ended.opened_all(disk.skip(j + 1)) == ended);
}

/// The log up to the damage is in step with its files.
proof fn lemma_cut_holds(s: LogState, j: int, good: Seq<u8>, lost: Seq<u8>)
    requires
        s.holds(),
        0 <= j < s.files.len(),
        s.files[j] == good + lost,
        valid_len(good) == good.len(),
    ensures
        (LogState { log: cut_log(s, j, good), files: s.files.take(j).push(good) }).holds(),
{
    let t = LogState { log: cut_log(s, j, good), files: s.files.take(j).push(good) };
    assert(s.pair_holds(j));
    lemma_prefix_holds(s.log.segments[j], good, lost);
    assert forall|i: int| 0 <= i < t.files.len() implies #[trigger] t.pair_holds(i) by {
        if i < j {
            assert(s.pair_holds(i));
        }
    }
    assert forall|i: int| 0 < i < t.log.segments.len() implies #[trigger] linked(
        t.log.segments,
        i,
    ) by {
        assert(linked(s.log.segments, i));
    }
}

/// What the files up to the damage hold.
proof fn lemma_cut_contents(files: Seq<Seq<u8>>, j: int, good: Seq<u8>, lost: Seq<u8>)
    requires
        0 <= j < files.len(),
        files[j] == good + lost,
        stored_entries(good + lost) == stored_entries(good) + stored_entries(lost),
        stored_entries(lost).len() > 0,
    ensures
        ({
            let before = contents(files.take(j)).len() + stored_entries(good).len();
            &&& contents(files.take(j).push(good)) == contents(files).take(before as int)
            &&& before < contents(files).len()
        }),
{
    lemma_contents_push(files.take(j), good);
    lemma_contents_split(files, j);
    let head = contents(files.take(j));
    let tail = contents(files.skip(j).skip(1));
    let before = head.len() + stored_entries(good).len();
    assert(files.skip(j)[0] == files[j]);
    assert(contents(files.skip(j)) == stored_entries(files[j]) + tail);
    assert(contents(files) =~= head + (stored_entries(good) + stored_entries(lost)) + tail);
    assert(contents(files).take(before as int) =~= head + stored_entries(good));
}

proof fn lemma_contents_split(files: Seq<Seq<u8>>, k: int)
    requires
        0 <= k <= files.len(),
    ensures
        contents(files) == contents(files.take(k)) + contents(files.skip(k)),
    decreases k,
{
    if k == 0 {
        assert(files.skip(0) =~= files);
        assert(contents(files) =~= contents(files.take(0)) + contents(files));
    } else {
        lemma_contents_split(files.skip(1), k - 1);
        assert(files.skip(1).take(k - 1) =~= files.take(k).skip(1));
        assert(files.skip(1).skip(k - 1) =~= files.skip(k));
        assert(contents(files) =~= contents(files.take(k)) + contents(files.skip(k)));
    }
}

/// A log that was never written to holds nothing, and is in step with its one
/// empty file. It is what opening no files at all gives.
pub proof fn law_new_log_is_empty(config: SegmentLogConfig)
    ensures
        ({
            let s = LogState::new(config);
            &&& s.holds()
            &&& contents(s.files) == Seq::<LogEntryView>::empty()
            &&& s.log.start_offset() == 0
            &&& s.log.end_offset() == 0
            &&& SegmentLogView::unopened(config).opened_all(seq![]).with_first() == s.log
        }),
{
    let s = LogState::new(config);
    law_fresh_holds_nothing(0, config.index_interval);
    assert(s.pair_holds(0));
    assert(s.files.skip(1).len() == 0);
    assert(contents(s.files.skip(1)) =~= Seq::<LogEntryView>::empty());
    assert(s.files[0] =~= Seq::<u8>::empty());
    assert(contents(s.files) =~= Seq::<LogEntryView>::empty());
}

/// The name of a segment's log file gives its base offset back.
pub proof fn law_log_name_round_trip(base_offset: u64)
    ensures
        named_offset(segment_name(base_offset) + log_extension()) == Some(base_offset),
{
    let stem = segment_name(base_offset);
    let name = stem + log_extension();
    lemma_padding_round_trip(base_offset as nat, 20);
    lemma_decimal_nonempty(base_offset as nat);
    assert(name.take(name.len() - 4) =~= stem);
    assert(name.skip(name.len() - 4) =~= log_extension());
    assert(stem.len() > 0);
    assert(all_digits(stem));
    assert(crate::text::is_digit(stem[0]));
    assert(crate::text::without_plus(stem) == stem);
    assert(parsed_number(stem) == Some(base_offset));
}

/// The name of a segment's files has twenty digits, which spell its base offset.
pub proof fn law_segment_name(base_offset: u64)
    ensures
        segment_name(base_offset).len() == 20,
        all_digits(segment_name(base_offset)),
        crate::text::decimal_value(segment_name(base_offset)) == base_offset,
{
    lemma_padding_round_trip(base_offset as nat, 20);
    reveal_with_fuel(ten_to, 21);
    lemma_decimal_length(base_offset as nat, 20);
}

spec fn ten_to(k: nat) -> nat
    decreases k,
{
    if k == 0 {
        1
    } else {
        10 * ten_to((k - 1) as nat)
    }
}

proof fn lemma_decimal_length(n: nat, k: nat)
    requires
        k > 0,
        n < ten_to(k),
    ensures
        crate::text::decimal(n).len() <= k,
    decreases k,
{
    if n >= 10 {
        if k == 1 {
            assert(ten_to(0) == 1);
        }
        lemma_decimal_length(n / 10, (k - 1) as nat);
    }
}

/// Looking for an entry finds the one with that offset, wherever it is stored,
/// and nothing where the log has none.
pub proof fn law_entry_at_finds(
    s: LogState,
    offset: u64,
    r: Result<Option<crate::log_entry::LogEntry>, crate::error::XraftError>,
)
    requires
        s.holds(),
        entry_reads_as(
            s.log,
            tails_of(s.log, s.files, offset, (offset + 1) as u64),
            offset,
            r,
        ),
    ensures
        s.log.start_offset() <= offset < s.log.end_offset() ==> (r matches Ok(Some(e)) && e@
            == contents(s.files)[offset - s.log.start_offset()] && e.offset == offset),
        offset < s.log.start_offset() || offset >= s.log.end_offset() ==> (r matches Ok(None)),
{
    if s.log.start_offset() <= offset < s.log.end_offset() {
        let end = (offset + 1) as u64;
        let all = contents(s.files);
        let k = offset - s.log.start_offset();
        law_contents_numbered(s);
        law_log_read_returns_contents(s, offset, end);
        let before = all.take(k);
        let own = seq![all[k]];
        let after = all.skip(k + 1);
        assert(all[k].offset == offset);
        assert(all =~= before + (own + after));
        assert forall|i: int| 0 <= i < before.len() implies (#[trigger] before[i]).offset < offset
            || before[i].offset >= end by {
            assert(before[i] == all[i]);
        }
        assert forall|i: int| 0 <= i < after.len() implies (#[trigger] after[i]).offset < offset
            || after[i].offset >= end by {
            assert(after[i] == all[k + 1 + i]);
        }
        lemma_between_concat(before, own + after, offset, end);
        lemma_between_concat(own, after, offset, end);
        lemma_between_empty(before, offset, end);
        lemma_between_empty(after, offset, end);
        lemma_between_all(own, offset, end);
        assert(between(all, offset, end) =~= own);
    }
}

/// Opening takes the files in their order as long as each starts where the log
/// ends so far, and none from the first that does not.
pub proof fn law_open_takes_linked_files(log: SegmentLogView, files: Seq<SegmentFileView>)
    ensures
        ({
            let after = log.opened_all(files);
            let n = log.segments.len() as int;
            let kept = after.segments.len() - n;
            &&& 0 <= kept <= files.len()
            &&& after.config == log.config
            &&& forall|i: int| 0 <= i < n ==> #[trigger] after.segments[i] == log.segments[i]
            &&& forall|i: int|
                0 <= i < kept ==> after.segments[n + i] == SegmentView::recovered(
                    (#[trigger] files[i]).base_offset,
                    log.config.index_interval,
                    files[i].content,
                )
            &&& forall|i: int|
                0 <= i < kept && n + i > 0 ==> (#[trigger] files[i]).base_offset
                    == after.segments[n + i - 1].next_offset
            &&& kept < files.len() ==> after.segments.len() > 0 && files[kept].base_offset
                != after.segments.last().next_offset
        }),
    decreases files.len(),
{
    let after = log.opened_all(files);
    let n = log.segments.len() as int;
    if files.len() > 0 && log.continued_by(files[0].base_offset) {
        let next = log.opened(files[0].base_offset, files[0].content);
        let rest = files.skip(1);
        law_open_takes_linked_files(next, rest);
        let kept = after.segments.len() - n;
        assert(next.segments[n] == after.segments[n]);
        assert forall|i: int| 0 <= i < n implies #[trigger] after.segments[i]
            == log.segments[i] by {
            assert(next.segments[i] == log.segments[i]);
        }
        assert forall|i: int| 0 <= i < kept implies after.segments[n + i]
            == SegmentView::recovered(
            (#[trigger] files[i]).base_offset,
            log.config.index_interval,
            files[i].content,
        ) by {
            if i > 0 {
                assert(rest[i - 1] == files[i]);
            }
        }
        assert forall|i: int| 0 <= i < kept && n + i > 0 implies (#[trigger] files[i]).base_offset
            == after.segments[n + i - 1].next_offset by {
            if i > 0 {
                assert(rest[i - 1] == files[i]);
            } else {
                assert(after.segments[n - 1] == log.segments[n - 1]);
            }
        }
        if kept < files.len() {
            assert(rest[kept - 1] == files[kept]);
        }
    }
}

/// A log without any file starts with one empty segment at offset zero; any
/// other is as its files have it.
pub proof fn law_first_segment(log: SegmentLogView)
    ensures
        log.segments.len() > 0 ==> log.with_first() == log,
        log.segments.len() == 0 ==> {
            let l = log.with_first();
            &&& l.segments.len() == 1
            &&& l.start_offset() == 0
            &&& l.end_offset() == 0
            &&& l.segments[0].file_size == 0
            &&& l.config == log.config
        },
{
}

} // verus!
