//! The log as a row of segments.
//!
//! The log decides what goes to which file and what is read from it. Nothing
//! here touches a disk: an append is planned as a list of writes, and each
//! write is applied to the log once it is on disk, so that the log never runs
//! ahead of its files.
use vstd::prelude::*;
use vstd::slice::slice_subrange;

use crate::error::{IoFault, IoFaultKind, IoFaultView, XraftError, XraftErrorView};
use crate::log_entry::{entry_views, LogEntry, LogEntryView};
use crate::segment::{
    data_views, encodings, frames_size, lemma_frames_len, lemma_frames_push,
    lemma_frames_size_prefix, serialize_all, stored_entries, BatchWrite, BatchWriteView,
    ReadOutcome, Segment, SegmentView, BATCH_HEADER_LEN,
};
use crate::text::{append_decimal, decimal, parse_number, parsed_number};
use crate::types::{hyphenated, ClusterId};

verus! {

/// Default segment size limit in bytes (64 MiB).
pub const DEFAULT_MAX_SEGMENT_SIZE: u64 = 64 * 1024 * 1024;

/// Default index interval: one in sixteen entries is recorded.
pub const DEFAULT_INDEX_INTERVAL: u32 = 16;

/// Configuration of a segment log.
#[derive(Debug, Clone, Copy, PartialEq, Eq, Structural)]
pub struct SegmentLogConfig {
    /// How large a segment's log file may get. Must be greater than zero.
    pub max_segment_size: u64,
    /// Every how many entries one is recorded in the index. Must be greater
    /// than zero.
    pub index_interval: u32,
}

impl Default for SegmentLogConfig {
    fn default() -> (r: Self)
        ensures
            r == (SegmentLogConfig { max_segment_size: 67108864, index_interval: 16 }),
    {
        SegmentLogConfig {
            max_segment_size: DEFAULT_MAX_SEGMENT_SIZE,
            index_interval: DEFAULT_INDEX_INTERVAL,
        }
    }
}

impl SegmentLogConfig {
    /// What is wrong with the configuration, if anything.
    pub open spec fn complaint(self) -> Option<Seq<char>> {
        if self.max_segment_size == 0 {
            Some("max_segment_size must be greater than zero"@)
        } else if self.index_interval == 0 {
            Some("index_interval must be greater than zero"@)
        } else {
            None
        }
    }

    /// Checks the configuration.
    pub fn validate(&self) -> (r: Result<(), IoFault>)
        ensures
            r is Ok <==> self.complaint() is None,
            r matches Err(e) ==> e@ == (IoFaultView {
                kind: IoFaultKind::InvalidInput,
                message: self.complaint()->0,
            }),
    {
        if self.max_segment_size == 0 {
            return Err(
                IoFault::new(
                    IoFaultKind::InvalidInput,
                    String::from_str("max_segment_size must be greater than zero"),
                ),
            );
        }
        if self.index_interval == 0 {
            return Err(
                IoFault::new(
                    IoFaultKind::InvalidInput,
                    String::from_str("index_interval must be greater than zero"),
                ),
            );
        }
        Ok(())
    }
}

/// The extension of log files.
pub open spec fn log_extension() -> Seq<char> {
    seq!['.', 'l', 'o', 'g']
}

/// The base offset in the name of a log file.
pub open spec fn named_offset(name: Seq<char>) -> Option<u64> {
    if name.len() >= 4 && name.skip(name.len() - 4) == log_extension() {
        parsed_number(name.take(name.len() - 4))
    } else {
        None
    }
}

/// The base offset in the name of a log file, or `None` for another file.
pub fn parse_log_name(name: &str) -> (r: Option<u64>)
    ensures
        r == named_offset(name@),
{
    let len: usize = name.unicode_len();
    if len < 4 {
        return None;
    }
    let stem: usize = len - 4;
    let ghost ext = name@.skip(stem as int);
    if name.get_char(stem) != '.' || name.get_char(stem + 1) != 'l' || name.get_char(stem + 2)
        != 'o' || name.get_char(stem + 3) != 'g' {
        proof {
            assert(ext[0] == name@[stem as int]);
            assert(ext[1] == name@[stem + 1]);
            assert(ext[2] == name@[stem + 2]);
            assert(ext[3] == name@[stem + 3]);
        }
        return None;
    }
    assert(ext =~= log_extension());
    parse_number(name, stem)
}

/// The offsets never decrease.
pub open spec fn ascending(s: Seq<u64>) -> bool {
    forall|i: int, j: int| 0 <= i <= j < s.len() ==> s[i] <= s[j]
}

/// The base offsets in a list of file names, in the order of the list.
pub open spec fn named_offsets(names: Seq<String>) -> Seq<u64>
    decreases names.len(),
{
    if names.len() == 0 {
        seq![]
    } else {
        match named_offset(names.last()@) {
            Some(n) => named_offsets(names.drop_last()).push(n),
            None => named_offsets(names.drop_last()),
        }
    }
}

/// The base offsets of the log files among the names, in ascending order.
pub fn discover_segments(names: &Vec<String>) -> (r: Vec<u64>)
    ensures
        ascending(r@),
        r@.to_multiset() == named_offsets(names@).to_multiset(),
{
    broadcast use vstd::seq_lib::group_to_multiset_ensures;

    let mut r: Vec<u64> = Vec::new();
    let mut i: usize = 0;
    while i < names.len()
        invariant
            i <= names@.len(),
            ascending(r@),
            r@.to_multiset() == named_offsets(names@.take(i as int)).to_multiset(),
        decreases names@.len() - i,
    {
        proof {
            assert(names@.take(i + 1).drop_last() =~= names@.take(i as int));
        }
        match parse_log_name(names[i].as_str()) {
            Some(n) => {
                let mut at: usize = r.len();
                while at > 0 && r[at - 1] > n
                    invariant
                        at <= r@.len(),
                        ascending(r@),
                        forall|k: int| at <= k < r@.len() ==> #[trigger] r@[k] > n,
                    decreases at,
                {
                    at = at - 1;
                }
                let ghost before = r@;
                r.insert(at, n);
                proof {
                    assert forall|a: int, b: int| 0 <= a <= b < r@.len() implies r@[a] <= r@[b] by {
                        if a < at {
                            assert(r@[a] == before[a]);
                        } else if a > at {
                            assert(r@[a] == before[a - 1]);
                        }
                        if b < at {
                            assert(r@[b] == before[b]);
                        } else if b > at {
                            assert(r@[b] == before[b - 1]);
                        }
                    }
                    vstd::seq_lib::to_multiset_insert(before, at as int, n);
                    vstd::seq_lib::to_multiset_build(named_offsets(names@.take(i as int)), n);
                }
            },
            None => {},
        }
        i = i + 1;
    }
    assert(names@.take(i as int) =~= names@);
    r
}

/// Where the log of a cluster is, below the data directory.
pub open spec fn cluster_log_path(id: ClusterId) -> Seq<char> {
    "data/"@ + hyphenated(id.0 as nat) + "/log"@
}

/// Where the log of a cluster is, below the data directory.
pub fn cluster_log_dir(id: &ClusterId) -> (s: String)
    ensures
        s@ == cluster_log_path(*id),
{
    let mut s = String::from_str("data/");
    let text = id.as_str();
    s.append(text.as_str());
    s.append("/log");
    s
}

/// Something that is to be done to the files of the log.
#[derive(Debug)]
pub enum LogWrite {
    /// Create the files of a new segment.
    Roll { base_offset: u64 },
    /// Write a batch to the files of the last segment.
    Append(BatchWrite),
}

#[verifier::ext_equal]
pub enum LogWriteView {
    Roll { base_offset: u64 },
    Append(BatchWriteView),
}

impl View for LogWrite {
    type V = LogWriteView;

    open spec fn view(&self) -> LogWriteView {
        match self {
            LogWrite::Roll { base_offset } => LogWriteView::Roll { base_offset: *base_offset },
            LogWrite::Append(w) => LogWriteView::Append(w@),
        }
    }
}

/// The views of a list of writes.
pub open spec fn write_views(writes: Seq<LogWrite>) -> Seq<LogWriteView> {
    writes.map_values(|w: LogWrite| w@)
}

/// How many entries go into one batch: at least one, then as many as fit. The
/// file has `size` bytes, and `n` entries are in already.
pub open spec fn batch_count(size: nat, max: nat, datas: Seq<Seq<u8>>, n: nat) -> nat
    decreases datas.len() - n,
{
    if n < datas.len() && size + 12 + frames_size(datas.take(n as int + 1)) <= max {
        batch_count(size, max, datas, n + 1)
    } else {
        n
    }
}

/// True if a new segment is needed before the next entry.
pub open spec fn must_roll(size: nat, max: nat, data: Seq<u8>) -> bool {
    size > 0 && size + 12 + 4 + data.len() > max
}

/// The writes that append entries to the log whose last segment is `active`.
pub open spec fn planned(
    active: SegmentView,
    config: SegmentLogConfig,
    datas: Seq<Seq<u8>>,
) -> Seq<LogWriteView>
    decreases datas.len(),
{
    if datas.len() == 0 {
        seq![]
    } else {
        let max = config.max_segment_size as nat;
        let roll = must_roll(active.file_size as nat, max, datas[0]);
        let seg = if roll {
            SegmentView::fresh(active.next_offset, config.index_interval)
        } else {
            active
        };
        let n = batch_count(seg.file_size as nat, max, datas, 1);
        if n < 1 || n > datas.len() {
            seq![]
        } else {
            let w = seg.batch_write(datas.take(n as int));
            let rest = planned(seg.committed(w).cursor(), config, datas.skip(n as int));
            let batch = seq![LogWriteView::Append(w)] + rest;
            if roll {
                seq![LogWriteView::Roll { base_offset: active.next_offset }] + batch
            } else {
                batch
            }
        }
    }
}

pub proof fn lemma_batch_count(size: nat, max: nat, datas: Seq<Seq<u8>>, n: nat)
    requires
        n <= datas.len(),
    ensures
        n <= batch_count(size, max, datas, n) <= datas.len(),
        batch_count(size, max, datas, n) > n ==> size + 12 + frames_size(
            datas.take(batch_count(size, max, datas, n) as int),
        ) <= max,
    decreases datas.len() - n,
{
    if n < datas.len() && size + 12 + frames_size(datas.take(n as int + 1)) <= max {
        lemma_batch_count(size, max, datas, n + 1);
    }
}

/// The first index whose successor does not have the next offset, from `i` on.
pub open spec fn first_gap(entries: Seq<LogEntryView>, i: nat) -> Option<nat>
    decreases entries.len() - i,
{
    if i + 1 >= entries.len() {
        None
    } else if entries[i as int + 1].offset != entries[i as int].offset + 1 {
        Some(i)
    } else {
        first_gap(entries, i + 1)
    }
}

/// Why entries cannot be appended to a log that ends at `end`, if they cannot.
pub open spec fn append_complaint(end: u64, entries: Seq<LogEntryView>) -> Option<Seq<char>> {
    if entries.len() == 0 {
        None
    } else if entries[0].offset != end {
        Some(
            "offset discontinuity: expected "@ + decimal(end as nat) + ", got "@ + decimal(
                entries[0].offset as nat,
            ),
        )
    } else {
        match first_gap(entries, 0) {
            Some(i) => Some(
                "non-contiguous offsets: "@ + decimal(entries[i as int].offset as nat)
                    + " followed by "@ + decimal(entries[i as int + 1].offset as nat),
            ),
            None => None,
        }
    }
}

/// The index of the last segment that starts at or before `offset`.
pub open spec fn last_at_or_before(segments: Seq<SegmentView>, offset: u64) -> Option<nat>
    decreases segments.len(),
{
    if segments.len() == 0 {
        None
    } else if segments.last().base_offset <= offset {
        Some((segments.len() - 1) as nat)
    } else {
        last_at_or_before(segments.drop_last(), offset)
    }
}

/// Reading segments one after the other, each from its part of the log file,
/// with `acc` read before.
pub open spec fn read_segments(
    segments: Seq<SegmentView>,
    tails: Seq<Seq<u8>>,
    start: u64,
    end: u64,
    acc: Seq<LogEntryView>,
) -> ReadOutcome
    decreases segments.len(),
{
    if segments.len() == 0 {
        ReadOutcome::Entries(acc)
    } else {
        match segments[0].read_tail(tails[0], start, end) {
            ReadOutcome::Entries(found) => read_segments(
                segments.skip(1),
                tails.skip(1),
                start,
                end,
                acc + found,
            ),
            fault => fault,
        }
    }
}

/// The log: its segments in order. The last one is written to.
#[derive(Debug)]
pub struct SegmentLog {
    config: SegmentLogConfig,
    segments: Vec<Segment>,
}

#[verifier::ext_equal]
pub struct SegmentLogView {
    pub config: SegmentLogConfig,
    pub segments: Seq<SegmentView>,
}

/// The views of a list of segments.
pub open spec fn segment_views(segments: Seq<Segment>) -> Seq<SegmentView> {
    segments.map_values(|s: Segment| s@)
}

impl View for SegmentLog {
    type V = SegmentLogView;

    closed spec fn view(&self) -> SegmentLogView {
        SegmentLogView { config: self.config, segments: segment_views(self.segments@) }
    }
}

/// The parts of the files.
pub open spec fn byte_views(files: Seq<Vec<u8>>) -> Seq<Seq<u8>> {
    files.map_values(|f: Vec<u8>| f@)
}

/// The segment at `i` starts where the one before ends.
pub open spec fn linked(segments: Seq<SegmentView>, i: int) -> bool {
    segments[i].base_offset == segments[i - 1].next_offset
}

impl SegmentLogView {
    /// Each segment starts where the one before ends.
    pub open spec fn chained(self) -> bool {
        forall|i: int| 0 < i < self.segments.len() ==> #[trigger] linked(self.segments, i)
    }

    /// What every log keeps while it is opened.
    pub open spec fn segments_wf(self) -> bool {
        &&& forall|i: int| 0 <= i < self.segments.len() ==> (#[trigger] self.segments[i]).wf()
        &&& self.chained()
    }

    /// What every open log keeps.
    pub open spec fn wf(self) -> bool {
        &&& self.segments.len() > 0
        &&& self.segments_wf()
    }

    /// The offset of the first entry.
    pub open spec fn start_offset(self) -> u64 {
        self.segments[0].base_offset
    }

    /// The offset that the next entry gets.
    pub open spec fn end_offset(self) -> u64 {
        self.segments.last().next_offset
    }

    /// The log before its files are opened.
    pub open spec fn unopened(config: SegmentLogConfig) -> Self {
        SegmentLogView { config, segments: seq![] }
    }

    /// A segment file continues the log.
    pub open spec fn continued_by(self, base_offset: u64) -> bool {
        self.segments.len() == 0 || self.segments.last().next_offset == base_offset
    }

    /// The log with one more segment file opened, if that continues the log.
    pub open spec fn opened(self, base_offset: u64, file: Seq<u8>) -> Self {
        if self.continued_by(base_offset) {
            SegmentLogView {
                segments: self.segments.push(
                    SegmentView::recovered(base_offset, self.config.index_interval, file),
                ),
                ..self
            }
        } else {
            self
        }
    }

    /// The log with a list of segment files opened, up to the first that does
    /// not continue it.
    pub open spec fn opened_all(self, files: Seq<SegmentFileView>) -> Self
        decreases files.len(),
    {
        if files.len() == 0 || !self.continued_by(files[0].base_offset) {
            self
        } else {
            self.opened(files[0].base_offset, files[0].content).opened_all(files.skip(1))
        }
    }

    /// The offsets of the files that are opened fit.
    pub open spec fn opening_fits(self, files: Seq<SegmentFileView>) -> bool
        decreases files.len(),
    {
        files.len() > 0 && self.continued_by(files[0].base_offset) ==> {
            &&& files[0].base_offset + stored_entries(files[0].content).len() <= u64::MAX
            &&& self.opened(files[0].base_offset, files[0].content).opening_fits(files.skip(1))
        }
    }

    /// The log with a first segment, if it had none.
    pub open spec fn with_first(self) -> Self {
        if self.segments.len() == 0 {
            SegmentLogView {
                segments: seq![SegmentView::fresh(0, self.config.index_interval)],
                ..self
            }
        } else {
            self
        }
    }

    /// The log once a write is on disk.
    pub open spec fn applied(self, w: LogWriteView) -> Self {
        match w {
            LogWriteView::Roll { base_offset } => SegmentLogView {
                segments: self.segments.push(
                    SegmentView::fresh(base_offset, self.config.index_interval),
                ),
                ..self
            },
            LogWriteView::Append(b) => SegmentLogView {
                segments: self.segments.update(
                    self.segments.len() - 1,
                    self.segments.last().committed(b),
                ),
                ..self
            },
        }
    }

    /// A write can be applied.
    pub open spec fn accepts(self, w: LogWriteView) -> bool {
        match w {
            LogWriteView::Roll { base_offset } => base_offset == self.end_offset(),
            LogWriteView::Append(b) => {
                &&& b.follows(self.segments.last())
                &&& self.segments.last().file_size + b.size <= u64::MAX
            },
        }
    }

    /// The first and last segment that a read has to look at. A read that
    /// starts before the log starts with the first segment.
    pub open spec fn segment_range(self, start: u64, end: u64) -> Option<(nat, nat)> {
        if start >= end {
            None
        } else {
            match last_at_or_before(self.segments, (end - 1) as u64) {
                None => None,
                Some(to) => Some(
                    (
                        match last_at_or_before(self.segments, start) {
                            None => 0,
                            Some(from) => from,
                        },
                        to,
                    ),
                ),
            }
        }
    }

    /// Reading the entries from `start` to `end`, given the part of the log
    /// file of each segment that has to be looked at.
    pub open spec fn read_tails(self, tails: Seq<Seq<u8>>, start: u64, end: u64) -> ReadOutcome {
        match self.segment_range(start, end) {
            None => ReadOutcome::Entries(seq![]),
            Some((from, to)) => read_segments(
                self.segments.subrange(from as int, to as int + 1),
                tails,
                start,
                end,
                seq![],
            ),
        }
    }
}

/// The base offset and the log file of a segment.
#[derive(Debug)]
pub struct SegmentFile {
    pub base_offset: u64,
    pub content: Vec<u8>,
}

#[verifier::ext_equal]
pub struct SegmentFileView {
    pub base_offset: u64,
    pub content: Seq<u8>,
}

impl View for SegmentFile {
    type V = SegmentFileView;

    open spec fn view(&self) -> SegmentFileView {
        SegmentFileView { base_offset: self.base_offset, content: self.content@ }
    }
}

/// The views of a list of segment files.
pub open spec fn file_views(files: Seq<SegmentFile>) -> Seq<SegmentFileView> {
    files.map_values(|f: SegmentFile| f@)
}

/// What opening a log found.
#[derive(Debug)]
pub struct OpenedLog {
    pub log: SegmentLog,
    /// How many of the files belong to the log. The others are to be removed.
    pub kept: usize,
    /// There was no file: that of the first segment is to be created.
    pub create_first: bool,
}

pub proof fn lemma_bases_ascend(log: SegmentLogView, i: int, j: int)
    requires
        log.segments_wf(),
        0 <= i <= j < log.segments.len(),
    ensures
        log.segments[i].base_offset <= log.segments[j].base_offset,
        i < j ==> log.segments[i].next_offset <= log.segments[j].base_offset,
    decreases j - i,
{
    if i < j {
        lemma_bases_ascend(log, i, j - 1);
        assert(linked(log.segments, j));
        assert(log.segments[j - 1].wf());
    }
}

pub proof fn lemma_last_at_or_before(segments: Seq<SegmentView>, offset: u64, k: int)
    requires
        0 <= k <= segments.len(),
        forall|i: int| 0 <= i < k ==> (#[trigger] segments[i]).base_offset <= offset,
        forall|i: int| k <= i < segments.len() ==> (#[trigger] segments[i]).base_offset > offset,
    ensures
        last_at_or_before(segments, offset) == (if k == 0 {
            None
        } else {
            Some((k - 1) as nat)
        }),
    decreases segments.len(),
{
    if segments.len() > k {
        lemma_last_at_or_before(segments.drop_last(), offset, k);
    }
}

/// The last segment that starts at or before an offset: it does, and the next
/// one does not.
pub proof fn lemma_found_segment(segments: Seq<SegmentView>, offset: u64)
    ensures
        match last_at_or_before(segments, offset) {
            None => forall|i: int|
                0 <= i < segments.len() ==> (#[trigger] segments[i]).base_offset > offset,
            Some(k) => {
                &&& k < segments.len()
                &&& segments[k as int].base_offset <= offset
                &&& forall|i: int|
                    k < i < segments.len() ==> (#[trigger] segments[i]).base_offset > offset
            },
        },
    decreases segments.len(),
{
    if segments.len() > 0 && segments.last().base_offset > offset {
        lemma_found_segment(segments.drop_last(), offset);
        assert forall|i: int|
            0 <= i < segments.len() && (last_at_or_before(segments, offset) matches Some(k) ==> i
                > k) implies (#[trigger] segments[i]).base_offset > offset by {
            if i < segments.len() - 1 {
                assert(segments[i] == segments.drop_last()[i]);
            }
        }
    }
}

impl SegmentLog {
    /// A log without segments, whose files are to be opened one by one.
    pub fn new(config: SegmentLogConfig) -> (r: Result<Self, IoFault>)
        ensures
            r is Ok <==> config.complaint() is None,
            r matches Ok(log) ==> log@ == SegmentLogView::unopened(config) && log@.segments_wf(),
            r matches Err(e) ==> e@ == (IoFaultView {
                kind: IoFaultKind::InvalidInput,
                message: config.complaint()->0,
            }),
    {
        match config.validate() {
            Err(e) => Err(e),
            Ok(_) => {
                let log = SegmentLog { config, segments: Vec::new() };
                assert(log@ =~= SegmentLogView::unopened(config));
                Ok(log)
            },
        }
    }

    /// Opens the log file of the next segment. Returns false, and changes
    /// nothing, if the segment does not start where the log ends: this file
    /// and all later ones are then to be removed.
    pub fn open_next(&mut self, base_offset: u64, file: &[u8]) -> (continued: bool)
        requires
            old(self)@.segments_wf(),
            old(self)@.continued_by(base_offset) ==> base_offset + stored_entries(file@).len()
                <= u64::MAX,
        ensures
            continued == old(self)@.continued_by(base_offset),
            final(self)@ == old(self)@.opened(base_offset, file@),
            final(self)@.segments_wf(),
    {
        let n: usize = self.segments.len();
        assert(self@.segments.len() == n);
        if n > 0 {
            assert(self@.segments[n - 1] == self.segments@[n - 1]@);
            if self.segments[n - 1].next_offset() != base_offset {
                return false;
            }
        }
        let segment = Segment::open(base_offset, self.config.index_interval, file);
        let ghost before = self@;
        self.segments.push(segment);
        proof {
            assert(self@ =~= before.opened(base_offset, file@));
            assert forall|i: int| 0 <= i < self@.segments.len() implies (
            #[trigger] self@.segments[i]).wf() by {
                if i < n {
                    assert(self@.segments[i] == before.segments[i]);
                }
            }
            assert forall|i: int| 0 < i < self@.segments.len() implies #[trigger] linked(
                self@.segments,
                i,
            ) by {
                if i < n {
                    assert(linked(before.segments, i));
                }
            }
        }
        true
    }

    /// Ends the opening. Returns true if the log had no segment: it gets a
    /// first one, whose files are to be created.
    pub fn finish_open(&mut self) -> (created: bool)
        requires
            old(self)@.segments_wf(),
        ensures
            created == (old(self)@.segments.len() == 0),
            final(self)@ == old(self)@.with_first(),
            final(self)@.wf(),
    {
        assert(self@.segments.len() == self.segments@.len());
        if self.segments.len() == 0 {
            let ghost before = self@;
            self.segments.push(Segment::create(0, self.config.index_interval));
            assert(self@ =~= before.with_first());
            true
        } else {
            false
        }
    }

    /// Opens a log from its files, which are given in the order of their base
    /// offsets.
    pub fn open(config: SegmentLogConfig, files: &Vec<SegmentFile>) -> (r: Result<
        OpenedLog,
        IoFault,
    >)
        requires
            config.complaint() is None ==> SegmentLogView::unopened(config).opening_fits(
                file_views(files@),
            ),
        ensures
            r is Ok <==> config.complaint() is None,
            r matches Err(e) ==> e@ == (IoFaultView {
                kind: IoFaultKind::InvalidInput,
                message: config.complaint()->0,
            }),
            r matches Ok(o) ==> {
                let opened = SegmentLogView::unopened(config).opened_all(file_views(files@));
                &&& o.log@ == opened.with_first()
                &&& o.log@.wf()
                &&& o.kept == opened.segments.len()
                &&& o.create_first == (opened.segments.len() == 0)
            },
    {
        let mut log = match Self::new(config) {
            Err(e) => {
                return Err(e);
            },
            Ok(log) => log,
        };
        let ghost views = file_views(files@);
        let ghost whole = SegmentLogView::unopened(config).opened_all(views);
        let mut i: usize = 0;
        let mut more = true;
        assert(views.skip(0) =~= views);
        while more && i < files.len()
            invariant
                i <= files@.len(),
                views == file_views(files@),
                whole == SegmentLogView::unopened(config).opened_all(views),
                log@.segments_wf(),
                log@.segments.len() == i,
                more ==> whole == log@.opened_all(views.skip(i as int)),
                !more ==> whole == log@,
                more ==> log@.opening_fits(views.skip(i as int)),
            decreases files@.len() - i, if more { 1int } else { 0int },
        {
            let ghost rest = views.skip(i as int);
            assert(rest[0] == files@[i as int]@);
            if log.open_next(files[i].base_offset, files[i].content.as_slice()) {
                i = i + 1;
                assert(rest.skip(1) =~= views.skip(i as int));
            } else {
                more = false;
            }
        }
        let create_first = log.finish_open();
        Ok(OpenedLog { log, kept: i, create_first })
    }

    /// The offset of the first entry.
    pub fn log_start_offset(&self) -> (n: u64)
        requires
            self@.wf(),
        ensures
            n == self@.start_offset(),
    {
        assert(self@.segments[0] == self.segments@[0]@);
        self.segments[0].base_offset()
    }

    /// The offset that the next entry gets.
    pub fn log_end_offset(&self) -> (n: u64)
        requires
            self@.wf(),
        ensures
            n == self@.end_offset(),
    {
        let last: usize = self.segments.len() - 1;
        assert(self@.segments[last as int] == self.segments@[last as int]@);
        self.segments[last].next_offset()
    }

    /// How many segments the log has.
    pub fn segment_count(&self) -> (n: usize)
        ensures
            n == self@.segments.len(),
    {
        self.segments.len()
    }

    /// A segment of the log.
    pub fn segment(&self, i: usize) -> (s: &Segment)
        requires
            i < self@.segments.len(),
        ensures
            s@ == self@.segments[i as int],
    {
        &self.segments[i]
    }

    /// Checks that entries continue the log.
    fn check_append(&self, entries: &[LogEntry]) -> (r: Result<(), XraftError>)
        requires
            self@.wf(),
        ensures
            r is Ok <==> append_complaint(self@.end_offset(), entry_views(entries@)) is None,
            r matches Err(e) ==> e@ == XraftErrorView::StorageError(
                IoFaultView {
                    kind: IoFaultKind::InvalidInput,
                    message: append_complaint(self@.end_offset(), entry_views(entries@))->0,
                },
            ),
    {
        if entries.len() == 0 {
            return Ok(());
        }
        let end: u64 = self.log_end_offset();
        let ghost views = entry_views(entries@);
        assert(views[0].offset == entries@[0].offset);
        if entries[0].offset != end {
            let mut m = String::from_str("offset discontinuity: expected ");
            append_decimal(&mut m, end);
            m.append(", got ");
            append_decimal(&mut m, entries[0].offset);
            return Err(XraftError::StorageError(IoFault::new(IoFaultKind::InvalidInput, m)));
        }
        let mut i: usize = 0;
        while i < entries.len() - 1
            invariant
                0 < entries@.len(),
                i < entries@.len(),
                views == entry_views(entries@),
                views[0].offset == end,
                end == self@.end_offset(),
                first_gap(views, 0) == first_gap(views, i as nat),
            decreases entries@.len() - i,
        {
            assert(views[i as int].offset == entries@[i as int].offset);
            assert(views[i + 1].offset == entries@[i + 1].offset);
            if entries[i].offset == u64::MAX || entries[i + 1].offset != entries[i].offset + 1 {
                let mut m = String::from_str("non-contiguous offsets: ");
                append_decimal(&mut m, entries[i].offset);
                m.append(" followed by ");
                append_decimal(&mut m, entries[i + 1].offset);
                return Err(XraftError::StorageError(IoFault::new(IoFaultKind::InvalidInput, m)));
            }
            i = i + 1;
        }
        Ok(())
    }

    /// Plans how to append entries. They are written in batches; a batch goes
    /// to the last segment while that stays within its size limit, and a new
    /// segment is started where the next entry would not fit. Each write is to
    /// be applied to the log once it is on disk.
    pub fn append(&self, entries: &[LogEntry]) -> (r: Result<Vec<LogWrite>, XraftError>)
        requires
            self@.wf(),
            append_complaint(self@.end_offset(), entry_views(entries@)) is None ==> {
                &&& self@.end_offset() + entries@.len() <= u64::MAX
                &&& 12 + frames_size(encodings(entry_views(entries@))) <= usize::MAX
            },
        ensures
            r is Ok <==> append_complaint(self@.end_offset(), entry_views(entries@)) is None,
            r matches Err(e) ==> e@ == XraftErrorView::StorageError(
                IoFaultView {
                    kind: IoFaultKind::InvalidInput,
                    message: append_complaint(self@.end_offset(), entry_views(entries@))->0,
                },
            ),
            r matches Ok(writes) ==> write_views(writes@) == planned(
                self@.segments.last().cursor(),
                self@.config,
                encodings(entry_views(entries@)),
            ),
    {
        match self.check_append(entries) {
            Err(e) => {
                return Err(e);
            },
            Ok(_) => {},
        }
        let serialized = serialize_all(entries);
        let last: usize = self.segments.len() - 1;
        assert(self@.segments[last as int] == self.segments@[last as int]@);
        let mut cursor = self.segments[last].cursor();
        let mut writes: Vec<LogWrite> = Vec::new();
        let mut pos: usize = 0;
        let ghost datas = data_views(serialized@);
        let ghost whole = planned(cursor@, self.config, datas);
        assert(datas.skip(0) =~= datas);
        assert(write_views(writes@) + whole =~= whole);
        while pos < entries.len()
            invariant
                pos <= entries@.len(),
                serialized@.len() == entries@.len(),
                datas == data_views(serialized@),
                12 + frames_size(datas) <= usize::MAX,
                cursor@.wf(),
                cursor@ == cursor@.cursor(),
                cursor@.next_offset + (entries@.len() - pos) <= u64::MAX,
                whole == write_views(writes@) + planned(
                    cursor@,
                    self.config,
                    datas.skip(pos as int),
                ),
            decreases entries@.len() - pos,
        {
            let ghost todo = datas.skip(pos as int);
            let ghost before = write_views(writes@);
            let ghost active = cursor@;
            let max: u64 = self.config.max_segment_size;
            proof {
                lemma_suffix_size(datas, pos as int);
                assert(todo[0] == serialized@[pos as int].data@);
                assert(todo.take(1) =~= Seq::<Seq<u8>>::empty().push(todo[0]));
                lemma_frames_push(Seq::<Seq<u8>>::empty(), todo[0]);
                lemma_frames_size_prefix(todo, 1);
            }
            let one: u64 = BATCH_HEADER_LEN + serialized[pos].frame_size();
            let size: u64 = cursor.file_size();
            let roll = size > 0 && (size >= max || one > max - size);
            assert(roll == must_roll(size as nat, max as nat, todo[0]));
            if roll {
                let base: u64 = cursor.next_offset();
                writes.push(LogWrite::Roll { base_offset: base });
                cursor = Segment::create(base, self.config.index_interval);
            }
            let size: u64 = cursor.file_size();
            let mut end: usize = pos + 1;
            let mut batch: u64 = one;
            let mut more = true;
            let ghost n = batch_count(size as nat, max as nat, todo, 1);
            while more && end < entries.len()
                invariant
                    pos < end <= entries@.len(),
                    serialized@.len() == entries@.len(),
                    datas == data_views(serialized@),
                    todo == datas.skip(pos as int),
                    12 + frames_size(todo) <= usize::MAX,
                    batch == 12 + frames_size(todo.take(end - pos)),
                    n == batch_count(size as nat, max as nat, todo, 1),
                    more ==> n == batch_count(size as nat, max as nat, todo, (end - pos) as nat),
                    !more ==> n == end - pos,
                decreases entries@.len() - end, if more { 1int } else { 0int },
            {
                proof {
                    let k = end - pos;
                    assert(todo[k] == serialized@[end as int].data@);
                    assert(todo.take(k + 1) =~= todo.take(k).push(todo[k]));
                    lemma_frames_push(todo.take(k), todo[k]);
                    lemma_frames_size_prefix(todo, k + 1);
                }
                let candidate: u64 = batch + serialized[end].frame_size();
                if candidate > max || size > max - candidate {
                    more = false;
                } else {
                    batch = candidate;
                    end = end + 1;
                }
            }
            proof {
                lemma_batch_count(size as nat, max as nat, todo, 1);
                assert(n == end - pos);
                assert(datas.subrange(pos as int, end as int) =~= todo.take(n as int));
                lemma_frames_size_prefix(todo, n as int);
                lemma_frames_len(todo.take(n as int));
            }
            let part = slice_subrange(serialized.as_slice(), pos, end);
            let sources = slice_subrange(entries, pos, end);
            assert(data_views(part@) =~= todo.take(n as int));
            let w = cursor.append_batch(sources, part);
            let ghost seg = cursor@;
            proof {
                lemma_written_size(todo.take(n as int));
            }
            cursor.commit(&w);
            cursor = cursor.cursor();
            let ghost mid = write_views(writes@);
            writes.push(LogWrite::Append(w));
            proof {
                let rest = planned(cursor@, self.config, todo.skip(n as int));
                assert(todo.skip(n as int) =~= datas.skip(end as int));
                assert(write_views(writes@) =~= mid.push(LogWriteView::Append(w@)));
                if roll {
                    assert(mid =~= before.push(
                        LogWriteView::Roll { base_offset: active.next_offset },
                    ));
                } else {
                    assert(mid =~= before);
                }
                assert(whole =~= write_views(writes@) + rest);
            }
            pos = end;
        }
        assert(write_views(writes@) + planned(cursor@, self.config, datas.skip(pos as int))
            =~= write_views(writes@));
        Ok(writes)
    }

    /// Takes note that a write is on disk.
    pub fn apply(&mut self, w: &LogWrite)
        requires
            old(self)@.wf(),
            old(self)@.accepts(w@),
        ensures
            final(self)@ == old(self)@.applied(w@),
            final(self)@.wf(),
    {
        let ghost before = self@;
        let last: usize = self.segments.len() - 1;
        assert(before.segments[last as int] == self.segments@[last as int]@);
        match w {
            LogWrite::Roll { base_offset } => {
                self.segments.push(Segment::create(*base_offset, self.config.index_interval));
                assert(self@ =~= before.applied(w@));
            },
            LogWrite::Append(b) => {
                let mut segment = self.segments.remove(last);
                segment.commit(b);
                self.segments.push(segment);
                assert(self@ =~= before.applied(w@));
            },
        }
        proof {
            assert forall|i: int| 0 <= i < self@.segments.len() implies (
            #[trigger] self@.segments[i]).wf() by {
                if i < last {
                    assert(self@.segments[i] == before.segments[i]);
                } else if i == last {
                    assert(before.segments[i].wf());
                }
            }
            assert forall|i: int| 0 < i < self@.segments.len() implies #[trigger] linked(
                self@.segments,
                i,
            ) by {
                if i <= last {
                    assert(linked(before.segments, i));
                }
            }
        }
    }

    /// The index of the last segment that starts at or before `offset`.
    fn find_segment(&self, offset: u64) -> (r: Option<usize>)
        requires
            self@.segments_wf(),
        ensures
            match last_at_or_before(self@.segments, offset) {
                None => r is None,
                Some(k) => r matches Some(i) && i == k,
            },
    {
        let mut lo: usize = 0;
        let mut hi: usize = self.segments.len();
        let ghost views = self@.segments;
        while lo < hi
            invariant
                views == self@.segments,
                self@.segments_wf(),
                lo <= hi <= views.len(),
                views.len() == self.segments@.len(),
                forall|i: int| 0 <= i < lo ==> (#[trigger] views[i]).base_offset <= offset,
                forall|i: int| hi <= i < views.len() ==> (#[trigger] views[i]).base_offset > offset,
            decreases hi - lo,
        {
            let mid: usize = lo + (hi - lo) / 2;
            assert(views[mid as int] == self.segments@[mid as int]@);
            if self.segments[mid].base_offset() <= offset {
                proof {
                    assert forall|i: int| 0 <= i < mid + 1 implies (
                    #[trigger] views[i]).base_offset <= offset by {
                        lemma_bases_ascend(self@, i, mid as int);
                    }
                }
                lo = mid + 1;
            } else {
                proof {
                    assert forall|i: int| mid <= i < views.len() implies (
                    #[trigger] views[i]).base_offset > offset by {
                        lemma_bases_ascend(self@, mid as int, i);
                    }
                }
                hi = mid;
            }
        }
        proof {
            lemma_last_at_or_before(views, offset, lo as int);
        }
        if lo == 0 {
            None
        } else {
            Some(lo - 1)
        }
    }

    /// The first and last segment that a read has to look at, or `None` where
    /// there is nothing to read.
    pub fn segment_range(&self, start_offset: u64, end_offset: u64) -> (r: Option<(usize, usize)>)
        requires
            self@.wf(),
        ensures
            match self@.segment_range(start_offset, end_offset) {
                None => r is None,
                Some((from, to)) => r matches Some(p) && p.0 == from && p.1 == to && from <= to
                    < self@.segments.len(),
            },
    {
        if start_offset >= end_offset {
            return None;
        }
        proof {
            lemma_found_segment(self@.segments, start_offset);
            lemma_found_segment(self@.segments, (end_offset - 1) as u64);
        }
        match self.find_segment(end_offset - 1) {
            None => None,
            Some(to) => match self.find_segment(start_offset) {
                None => Some((0, to)),
                Some(from) => {
                    assert(self@.segments[from as int].base_offset <= end_offset - 1);
                    Some((from, to))
                },
            },
        }
    }

    /// Reads the entries from `start_offset` to `end_offset`. The tails are,
    /// for each segment that has to be looked at, the log file from its read
    /// position on.
    pub fn read(&self, tails: &Vec<Vec<u8>>, start_offset: u64, end_offset: u64) -> (r: Result<
        Vec<LogEntry>,
        XraftError,
    >)
        requires
            self@.wf(),
            self@.tails_fit(byte_views(tails@), start_offset, end_offset),
        ensures
            log_reads_as(r, self@.read_tails(byte_views(tails@), start_offset, end_offset)),
    {
        let mut result: Vec<LogEntry> = Vec::new();
        assert(entry_views(result@) =~= seq![]);
        let (from, to) = match self.segment_range(start_offset, end_offset) {
            None => {
                return Ok(result);
            },
            Some(p) => p,
        };
        let ghost views = self@.segments.subrange(from as int, to + 1);
        let ghost parts = byte_views(tails@);
        let ghost whole = read_segments(views, parts, start_offset, end_offset, seq![]);
        let mut i: usize = 0;
        assert(views.skip(0) =~= views);
        assert(parts.skip(0) =~= parts);
        while i < tails.len()
            invariant
                from <= to < self@.segments.len(),
                i <= to - from + 1,
                self@.wf(),
                tails@.len() == to - from + 1,
                views == self@.segments.subrange(from as int, to + 1),
                parts == byte_views(tails@),
                self@.segment_range(start_offset, end_offset) == Some((from as nat, to as nat)),
                self@.tails_fit(parts, start_offset, end_offset),
                whole == self@.read_tails(parts, start_offset, end_offset),
                whole == read_segments(
                    views.skip(i as int),
                    parts.skip(i as int),
                    start_offset,
                    end_offset,
                    entry_views(result@),
                ),
            decreases to - from + 1 - i,
        {
            assert(views.skip(i as int)[0] == self@.segments[from + i]);
            assert(parts.skip(i as int)[0] == tails@[i as int]@);
            assert(self@.segments[from + i].wf());
            assert(parts[i as int].len() == tails@[i as int]@.len());
            let segment = self.segment(from + i);
            match segment.read(tails[i].as_slice(), start_offset, end_offset) {
                Err(e) => {
                    return Err(XraftError::StorageError(e));
                },
                Ok(found) => {
                    append_all(&mut result, found);
                },
            }
            assert(views.skip(i as int).skip(1) =~= views.skip(i + 1));
            assert(parts.skip(i as int).skip(1) =~= parts.skip(i + 1));
            i = i + 1;
        }
        Ok(result)
    }

    /// Reads the entry at `offset`, if the log has it. The tails are those of
    /// a read from `offset` to the next.
    pub fn entry_at(&self, tails: &Vec<Vec<u8>>, offset: u64) -> (r: Result<
        Option<LogEntry>,
        XraftError,
    >)
        requires
            self@.wf(),
            self@.start_offset() <= offset < self@.end_offset() ==> self@.tails_fit(
                byte_views(tails@),
                offset,
                (offset + 1) as u64,
            ),
        ensures
            entry_reads_as(self@, byte_views(tails@), offset, r),
    {
        if offset < self.log_start_offset() || offset >= self.log_end_offset() {
            return Ok(None);
        }
        match self.read(tails, offset, offset + 1) {
            Err(e) => Err(e),
            Ok(mut found) => {
                if found.len() == 0 {
                    Ok(None)
                } else {
                    assert(entry_views(found@)[0] == found@[0]@);
                    Ok(Some(found.remove(0)))
                }
            },
        }
    }

    /// Removing entries from the end is not available.
    pub fn truncate_suffix(&mut self, from_offset: u64) -> (r: Result<(), XraftError>)
        ensures
            *final(self) == *old(self),
            r matches Err(e) && e@ == XraftErrorView::StorageError(
                IoFaultView {
                    kind: IoFaultKind::Unsupported,
                    message: "truncate_suffix not yet implemented (Stage 2.2)"@,
                },
            ),
    {
        Err(
            XraftError::StorageError(
                IoFault::new(
                    IoFaultKind::Unsupported,
                    String::from_str("truncate_suffix not yet implemented (Stage 2.2)"),
                ),
            ),
        )
    }

    /// Removing entries from the start is not available.
    pub fn truncate_prefix(&mut self, up_to_offset: u64) -> (r: Result<(), XraftError>)
        ensures
            *final(self) == *old(self),
            r matches Err(e) && e@ == XraftErrorView::StorageError(
                IoFaultView {
                    kind: IoFaultKind::Unsupported,
                    message: "truncate_prefix not yet implemented (Stage 2.2)"@,
                },
            ),
    {
        Err(
            XraftError::StorageError(
                IoFault::new(
                    IoFaultKind::Unsupported,
                    String::from_str("truncate_prefix not yet implemented (Stage 2.2)"),
                ),
            ),
        )
    }
}

impl SegmentLogView {
    /// There is one tail for each segment that a read has to look at.
    pub open spec fn tails_fit(self, tails: Seq<Seq<u8>>, start: u64, end: u64) -> bool {
        match self.segment_range(start, end) {
            None => true,
            Some((from, to)) => {
                &&& tails.len() == to - from + 1
                &&& forall|i: int|
                    0 <= i < tails.len() ==> self.segments[from + i].read_position(start) + (
                    #[trigger] tails[i]).len() <= u64::MAX
            },
        }
    }
}

/// `r` is the result of a read of the log with this outcome.
pub open spec fn log_reads_as(r: Result<Vec<LogEntry>, XraftError>, outcome: ReadOutcome) -> bool {
    match outcome {
        ReadOutcome::Entries(found) => r matches Ok(v) && entry_views(v@) == found,
        ReadOutcome::Faulty { fault, at } => r matches Err(e)
            && e@ matches XraftErrorView::StorageError(f) && crate::segment::reports(f, fault, at),
    }
}

/// `r` is the result of looking for the entry at `offset`, with this outcome of
/// a read from there to the next offset.
pub open spec fn entry_reads_as(
    log: SegmentLogView,
    tails: Seq<Seq<u8>>,
    offset: u64,
    r: Result<Option<LogEntry>, XraftError>,
) -> bool {
    if log.start_offset() <= offset < log.end_offset() {
        match log.read_tails(tails, offset, (offset + 1) as u64) {
            ReadOutcome::Entries(found) => if found.len() == 0 {
                r == Ok::<Option<LogEntry>, XraftError>(None)
            } else {
                r matches Ok(Some(e)) && e@ == found[0]
            },
            ReadOutcome::Faulty { fault, at } => r matches Err(e)
                && e@ matches XraftErrorView::StorageError(f) && crate::segment::reports(
                f,
                fault,
                at,
            ),
        }
    } else {
        r == Ok::<Option<LogEntry>, XraftError>(None)
    }
}

/// Moves the entries of `more` to the end of `out`.
fn append_all(out: &mut Vec<LogEntry>, more: Vec<LogEntry>)
    ensures
        entry_views(final(out)@) == entry_views(old(out)@) + entry_views(more@),
{
    let mut more = more;
    let ghost added = more@;
    let ghost before = out@;
    out.append(&mut more);
    assert(out@ =~= before + added);
    assert(entry_views(out@) =~= entry_views(before) + entry_views(added));
}

/// The frames of later entries are not larger than those of all.
pub proof fn lemma_suffix_size(datas: Seq<Seq<u8>>, n: int)
    requires
        0 <= n <= datas.len(),
    ensures
        frames_size(datas.skip(n)) <= frames_size(datas),
    decreases n,
{
    if n > 0 {
        assert(datas.skip(1).skip(n - 1) =~= datas.skip(n));
        lemma_suffix_size(datas.skip(1), n - 1);
    } else {
        assert(datas.skip(0) =~= datas);
    }
}

/// A file grows by no more than the batch that is written.
proof fn lemma_written_size(datas: Seq<Seq<u8>>)
    requires
        12 + frames_size(datas) <= u64::MAX,
    ensures
        4 + crate::segment::batch_length(crate::segment::batch_payload(datas)) <= 12 + frames_size(
            datas,
        ),
{
    lemma_frames_len(datas);
    crate::codec::lemma_le_bytes_len((datas.len() as u32) as nat, 4);
    let x = (4 + crate::segment::batch_payload(datas).len()) as u64;
    assert((x as u32) as u64 <= x) by (bit_vector);
}

} // verus!
