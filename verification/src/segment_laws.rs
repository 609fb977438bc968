//! What segments promise: entries that were written are read back, a damaged
//! batch is reported to the readers that need it and to no others, and a file is
//! recovered up to the first batch that is torn or damaged.
use vstd::prelude::*;

use crate::codec::{crc32c_of, le_bytes, lemma_u32_round_trip};
use crate::log_entry::LogEntryView;
use crate::segment::{
    batch_bytes, batch_length, batch_payload, encodings, frame_entries, frame_entry, frame_length,
    frame_walk, frames, frames_size, frames_valid, front_checksum, front_count, front_frames,
    front_length, front_payload, front_size, front_valid, index_marks, lemma_frame_entries_len,
    lemma_frames_len, lemma_marks_sorted, length_plausible, read_outcome, stored_entries,
    stored_marks, valid_len, BatchFault, FrameWalk, ReadOutcome, SegmentView, MAX_BATCH_DATA,
};
use crate::segment_index::floor_position;

verus! {

/// The offsets of the entries count up from `first`.
pub open spec fn numbered(entries: Seq<LogEntryView>, first: nat) -> bool {
    forall|i: int| 0 <= i < entries.len() ==> (#[trigger] entries[i]).offset == first + i
}

/// The entries with offsets from `start` to below `end`.
pub open spec fn between(entries: Seq<LogEntryView>, start: u64, end: u64) -> Seq<LogEntryView> {
    entries.filter(|e: LogEntryView| start <= e.offset < end)
}

/// A batch of these entries is not larger than what a reader accepts.
pub open spec fn batch_fits(entries: Seq<LogEntryView>) -> bool {
    8 + frames_size(encodings(entries)) <= MAX_BATCH_DATA
}

impl SegmentView {
    /// The log file holds exactly what the segment says.
    pub open spec fn holds(self, file: Seq<u8>) -> bool {
        &&& file.len() <= u64::MAX
        &&& valid_len(file) == file.len()
        &&& self.base_offset + stored_entries(file).len() <= u64::MAX
        &&& self == SegmentView::recovered(self.base_offset, self.index.interval, file)
        &&& numbered(stored_entries(file), self.base_offset as nat)
    }
}

// ---------------------------------------------------------------------------
// Batches one after the other
// ---------------------------------------------------------------------------
/// What a valid batch is does not depend on what follows it.
proof fn lemma_front_extend(b: Seq<u8>, x: Seq<u8>)
    requires
        front_valid(b),
    ensures
        front_valid(b + x),
        front_size(b + x) == front_size(b),
        front_frames(b + x) == front_frames(b),
        front_count(b + x) == front_count(b),
        (b + x).skip(front_size(b)) == b.skip(front_size(b)) + x,
{
    assert((b + x).take(4) =~= b.take(4));
    assert((b + x).subrange(4, 8) =~= b.subrange(4, 8));
    assert((b + x).subrange(8, 12) =~= b.subrange(8, 12));
    assert(front_payload(b + x) =~= front_payload(b));
    assert(front_frames(b + x) =~= front_frames(b));
    assert((b + x).skip(front_size(b)) =~= b.skip(front_size(b)) + x);
}

/// Where no batch starts nothing is stored.
proof fn lemma_nothing_stored(b: Seq<u8>, base: u64, interval: u32, first: nat, position: nat)
    requires
        b.len() < 12,
    ensures
        stored_entries(b) == Seq::<LogEntryView>::empty(),
        valid_len(b) == 0,
        stored_marks(b, base, interval, first, position) == Seq::<(u64, u64)>::empty(),
{
    assert(!front_valid(b));
}

/// Nor does it depend on more than its own bytes.
proof fn lemma_front_alone(b: Seq<u8>)
    requires
        front_valid(b),
    ensures
        front_valid(b.take(front_size(b))),
        front_size(b.take(front_size(b))) == front_size(b),
        front_frames(b.take(front_size(b))) == front_frames(b),
        front_count(b.take(front_size(b))) == front_count(b),
        valid_len(b.take(front_size(b))) == front_size(b),
        stored_entries(b.take(front_size(b))) == frame_entries(front_frames(b), front_count(b)),
{
    let a = b.take(front_size(b));
    assert(a.take(4) =~= b.take(4));
    assert(a.subrange(4, 8) =~= b.subrange(4, 8));
    assert(a.subrange(8, 12) =~= b.subrange(8, 12));
    assert(front_payload(a) =~= front_payload(b));
    assert(front_frames(a) =~= front_frames(b));
    let rest = a.skip(front_size(a));
    lemma_nothing_stored(rest, 0, 0, 0, 0);
    assert(front_valid(a));
    assert(stored_entries(a) =~= frame_entries(front_frames(b), front_count(b)));
}

/// What follows valid batches is read as if it stood alone.
proof fn lemma_stored_extend(
    b: Seq<u8>,
    x: Seq<u8>,
    base: u64,
    interval: u32,
    first: nat,
    position: nat,
)
    requires
        valid_len(b) == b.len(),
    ensures
        stored_entries(b + x) == stored_entries(b) + stored_entries(x),
        valid_len(b + x) == b.len() + valid_len(x),
        stored_marks(b + x, base, interval, first, position) == stored_marks(
            b,
            base,
            interval,
            first,
            position,
        ) + stored_marks(
            x,
            base,
            interval,
            first + stored_entries(b).len(),
            position + b.len(),
        ),
    decreases b.len(),
{
    if front_valid(b) {
        let rest = b.skip(front_size(b));
        lemma_front_extend(b, x);
        lemma_frame_entries_len(front_frames(b), front_count(b));
        lemma_stored_extend(
            rest,
            x,
            base,
            interval,
            first + front_count(b),
            (position + front_size(b)) as nat,
        );
        assert(stored_entries(b + x) =~= stored_entries(b) + stored_entries(x));
        assert(stored_marks(b + x, base, interval, first, position) =~= stored_marks(
            b,
            base,
            interval,
            first,
            position,
        ) + stored_marks(
            x,
            base,
            interval,
            first + stored_entries(b).len(),
            position + b.len(),
        ));
    } else {
        assert(b + x =~= x);
        assert(stored_entries(b + x) =~= stored_entries(b) + stored_entries(x));
        assert(stored_marks(b + x, base, interval, first, position) =~= stored_marks(
            b,
            base,
            interval,
            first,
            position,
        ) + stored_marks(
            x,
            base,
            interval,
            first + stored_entries(b).len(),
            position + b.len(),
        ));
    }
}

// ---------------------------------------------------------------------------
// A batch that was just written
// ---------------------------------------------------------------------------
proof fn lemma_frames_parse(entries: Seq<LogEntryView>)
    requires
        frames_size(encodings(entries)) <= u32::MAX,
    ensures
        frames_valid(frames(encodings(entries)), entries.len()),
        frame_entries(frames(encodings(entries)), entries.len()) == entries,
    decreases entries.len(),
{
    let datas = encodings(entries);
    if entries.len() == 0 {
        assert(frame_entries(frames(datas), 0) =~= entries);
    } else {
        let d = datas[0];
        let rest = entries.skip(1);
        assert(datas.skip(1) =~= encodings(rest));
        let f = frames(datas);
        lemma_u32_round_trip(d.len() as u32);
        assert(d.len() <= u32::MAX);
        assert(f.take(4) =~= le_bytes(d.len(), 4));
        assert(f.subrange(4, 4 + d.len() as int) =~= d);
        assert(f.skip(4 + d.len() as int) =~= frames(encodings(rest)));
        crate::codec::lemma_entry_round_trip(
            entries[0].offset,
            entries[0].term.0,
            entries[0].entry_type.spec_tag(),
            entries[0].payload,
        );
        entries[0].lemma_round_trip();
        lemma_frames_parse(rest);
        assert(frame_entries(f, entries.len()) =~= entries);
    }
}

proof fn lemma_batch_parse(
    entries: Seq<LogEntryView>,
    base: u64,
    interval: u32,
    first: nat,
    position: nat,
)
    requires
        batch_fits(entries),
    ensures
        ({
            let b = batch_bytes(encodings(entries));
            &&& front_valid(b)
            &&& front_size(b) == b.len()
            &&& b.len() == 4 + batch_length(batch_payload(encodings(entries)))
            &&& valid_len(b) == b.len()
            &&& stored_entries(b) == entries
            &&& stored_marks(b, base, interval, first, position) == index_marks(
                base,
                interval,
                first,
                entries.len(),
                position,
            )
        }),
{
    let datas = encodings(entries);
    let payload = batch_payload(datas);
    let b = batch_bytes(datas);
    lemma_frames_len(datas);
    assert(datas.len() as u32 == datas.len());
    lemma_u32_round_trip(datas.len() as u32);
    lemma_u32_round_trip(batch_length(payload));
    lemma_u32_round_trip(crc32c_of(payload));
    assert(b.take(4) =~= le_bytes(batch_length(payload) as nat, 4));
    assert(b.subrange(4, 8) =~= le_bytes(crc32c_of(payload) as nat, 4));
    assert(b.subrange(8, 12) =~= le_bytes(datas.len(), 4));
    assert(front_payload(b) =~= payload);
    assert(front_frames(b) =~= frames(datas));
    lemma_frames_parse(entries);
    assert(front_valid(b));
    let rest = b.skip(front_size(b));
    lemma_nothing_stored(
        rest,
        base,
        interval,
        first + front_count(b),
        (position + front_size(b)) as nat,
    );
    assert(stored_entries(b) =~= entries);
    assert(stored_marks(b, base, interval, first, position) =~= index_marks(
        base,
        interval,
        first,
        entries.len(),
        position,
    ));
}

// ---------------------------------------------------------------------------
// Reading
// ---------------------------------------------------------------------------
/// The entries from `start` on, up to the first that reaches `end`.
spec fn selected(entries: Seq<LogEntryView>, start: u64, end: u64) -> Seq<LogEntryView>
    decreases entries.len(),
{
    if entries.len() == 0 || entries[0].offset >= end {
        seq![]
    } else if entries[0].offset >= start {
        seq![entries[0]] + selected(entries.skip(1), start, end)
    } else {
        selected(entries.skip(1), start, end)
    }
}

spec fn reaches(entries: Seq<LogEntryView>, end: u64) -> bool
    decreases entries.len(),
{
    entries.len() > 0 && (entries[0].offset >= end || reaches(entries.skip(1), end))
}

proof fn lemma_walk(
    f: Seq<u8>,
    n: nat,
    next: nat,
    first: nat,
    start: u64,
    end: u64,
    acc: Seq<LogEntryView>,
)
    requires
        frames_valid(f, n),
        numbered(frame_entries(f, n), first),
    ensures
        ({
            let entries = frame_entries(f, n);
            let found = acc + selected(entries, start, end);
            frame_walk(f, n, next, start, end, acc) == (if reaches(entries, end) {
                FrameWalk::PastEnd(found)
            } else {
                FrameWalk::Finished {
                    found,
                    next: if n == 0 {
                        next
                    } else {
                        first + n
                    },
                }
            })
        }),
    decreases n,
{
    let entries = frame_entries(f, n);
    if n == 0 {
        assert(acc + selected(entries, start, end) =~= acc);
    } else {
        let e = frame_entry(f)->0;
        let rest = f.skip(4 + frame_length(f) as int);
        assert(entries.skip(1) =~= frame_entries(rest, (n - 1) as nat));
        assert(entries[0] == e);
        lemma_numbered_skip(entries, first, 1);
        if e.offset >= end {
            assert(acc + selected(entries, start, end) =~= acc);
        } else if e.offset >= start {
            lemma_walk(rest, (n - 1) as nat, first + 1, first + 1, start, end, acc.push(e));
            assert(acc.push(e) + selected(entries.skip(1), start, end) =~= acc + selected(
                entries,
                start,
                end,
            ));
        } else {
            lemma_walk(rest, (n - 1) as nat, first + 1, first + 1, start, end, acc);
        }
    }
}

proof fn lemma_numbered_skip(entries: Seq<LogEntryView>, first: nat, n: nat)
    requires
        numbered(entries, first),
        n <= entries.len(),
    ensures
        numbered(entries.skip(n as int), first + n),
        numbered(entries.take(n as int), first),
{
    let rest = entries.skip(n as int);
    assert forall|i: int| 0 <= i < rest.len() implies (#[trigger] rest[i]).offset == first + n
        + i by {
        assert(rest[i] == entries[n + i]);
    }
}

/// Numbered entries reach `end` if the last of them does.
proof fn lemma_reaches_numbered(entries: Seq<LogEntryView>, first: nat, end: u64)
    requires
        numbered(entries, first),
    ensures
        reaches(entries, end) <==> entries.len() > 0 && first + entries.len() > end,
    decreases entries.len(),
{
    if entries.len() > 0 {
        assert(entries[0].offset == first);
        lemma_numbered_skip(entries, first, 1);
        lemma_reaches_numbered(entries.skip(1), first + 1, end);
    }
}

proof fn lemma_selected_concat(
    a: Seq<LogEntryView>,
    b: Seq<LogEntryView>,
    start: u64,
    end: u64,
)
    ensures
        reaches(a, end) ==> selected(a + b, start, end) == selected(a, start, end),
        !reaches(a, end) ==> selected(a + b, start, end) == selected(a, start, end) + selected(
            b,
            start,
            end,
        ),
    decreases a.len(),
{
    if a.len() == 0 {
        assert(a + b =~= b);
        assert(selected(a, start, end) + selected(b, start, end) =~= selected(b, start, end));
    } else {
        assert((a + b).skip(1) =~= a.skip(1) + b);
        lemma_selected_concat(a.skip(1), b, start, end);
        if a[0].offset < end && !reaches(a, end) {
            assert(selected(a + b, start, end) =~= selected(a, start, end) + selected(
                b,
                start,
                end,
            ));
        }
    }
}

/// Reading goes through undamaged batches to what follows them, unless it
/// ends on the way.
proof fn lemma_read_through(
    good: Seq<u8>,
    rest: Seq<u8>,
    at: nat,
    size: nat,
    next: nat,
    first: nat,
    start: u64,
    end: u64,
    acc: Seq<LogEntryView>,
)
    requires
        valid_len(good) == good.len(),
        numbered(stored_entries(good), first),
        next <= first,
        at + good.len() <= size,
    ensures
        ({
            let entries = stored_entries(good);
            let found = acc + selected(entries, start, end);
            read_outcome(good + rest, at, size, next, start, end, acc) == (if reaches(
                entries,
                end,
            ) {
                ReadOutcome::Entries(found)
            } else {
                read_outcome(
                    rest,
                    at + good.len(),
                    size,
                    if entries.len() == 0 {
                        next
                    } else {
                        first + entries.len()
                    },
                    start,
                    end,
                    found,
                )
            })
        }),
    decreases good.len(),
{
    let entries = stored_entries(good);
    if front_valid(good) {
        let n = front_count(good);
        let front = frame_entries(front_frames(good), n);
        let more = good.skip(front_size(good));
        let after = stored_entries(more);
        lemma_frame_entries_len(front_frames(good), n);
        lemma_front_extend(good, rest);
        lemma_numbered_skip(entries, first, n);
        assert(entries.take(n as int) =~= front);
        assert(entries.skip(n as int) =~= after);
        lemma_reaches_numbered(entries, first, end);
        lemma_reaches_numbered(front, first, end);
        lemma_walk(front_frames(good), n, next, first, start, end, acc);
        lemma_selected_concat(front, after, start, end);
        if next >= end {
            assert(entries.len() > 0 ==> entries[0].offset == first);
            assert(acc + selected(entries, start, end) =~= acc);
        } else if !reaches(front, end) {
            let found = acc + selected(front, start, end);
            let next1 = if n == 0 {
                next
            } else {
                first + n
            };
            lemma_reaches_numbered(after, first + n, end);
            lemma_read_through(
                more,
                rest,
                (at + front_size(good)) as nat,
                size,
                next1,
                first + n,
                start,
                end,
                found,
            );
            assert(found + selected(after, start, end) =~= acc + selected(entries, start, end));
        }
    } else {
        assert(good + rest =~= rest);
        assert(acc + selected(entries, start, end) =~= acc);
    }
}

proof fn lemma_selected_numbered(entries: Seq<LogEntryView>, first: nat, start: u64, end: u64)
    requires
        numbered(entries, first),
    ensures
        selected(entries, start, end) == between(entries, start, end),
    decreases entries.len(),
{
    let p = |e: LogEntryView| start <= e.offset < end;
    if entries.len() == 0 {
        assert(between(entries, start, end) =~= seq![]) by {
            reveal(Seq::filter);
        }
    } else {
        let rest = entries.skip(1);
        lemma_numbered_skip(entries, first, 1);
        lemma_selected_numbered(rest, first + 1, start, end);
        assert(entries =~= seq![entries[0]] + rest);
        Seq::filter_distributes_over_add(seq![entries[0]], rest, p);
        assert(seq![entries[0]].filter(p) == (if p(entries[0]) {
            seq![entries[0]]
        } else {
            seq![]
        })) by {
            reveal_with_fuel(Seq::filter, 2);
            assert(seq![entries[0]].drop_last() =~= seq![]);
            assert(Seq::<LogEntryView>::empty().push(entries[0]) =~= seq![entries[0]]);
        }
        if entries[0].offset >= end {
            lemma_between_empty(rest, start, end);
            assert(between(entries, start, end) =~= seq![]);
        } else if entries[0].offset < start {
            assert(between(entries, start, end) =~= between(rest, start, end));
        }
    }
}

/// Nothing lies between where every offset is outside.
pub proof fn lemma_between_empty(entries: Seq<LogEntryView>, start: u64, end: u64)
    requires
        forall|i: int|
            0 <= i < entries.len() ==> (#[trigger] entries[i]).offset < start || entries[i].offset
                >= end,
    ensures
        between(entries, start, end) == Seq::<LogEntryView>::empty(),
    decreases entries.len(),
{
    reveal(Seq::filter);
    if entries.len() > 0 {
        let rest = entries.drop_last();
        assert forall|i: int| 0 <= i < rest.len() implies (#[trigger] rest[i]).offset < start
            || rest[i].offset >= end by {
            assert(rest[i] == entries[i]);
        }
        lemma_between_empty(rest, start, end);
        assert(entries.last() == entries[entries.len() - 1]);
    }
}

pub proof fn lemma_between_concat(
    a: Seq<LogEntryView>,
    b: Seq<LogEntryView>,
    start: u64,
    end: u64,
)
    ensures
        between(a + b, start, end) == between(a, start, end) + between(b, start, end),
{
    Seq::filter_distributes_over_add(a, b, |e: LogEntryView| start <= e.offset < end);
}

// ---------------------------------------------------------------------------
// The index
// ---------------------------------------------------------------------------
proof fn lemma_mark_positions(base: u64, interval: u32, first: nat, n: nat, position: nat)
    ensures
        forall|i: int|
            0 <= i < index_marks(base, interval, first, n, position).len() ==> (
            #[trigger] index_marks(base, interval, first, n, position)[i]).1 == position as u64,
    decreases n,
{
    if n > 0 {
        lemma_mark_positions(base, interval, first, (n - 1) as nat, position);
        let rest = index_marks(base, interval, first, (n - 1) as nat, position);
        let all = index_marks(base, interval, first, n, position);
        assert forall|i: int| 0 <= i < all.len() implies (#[trigger] all[i]).1
            == position as u64 by {
            if i < rest.len() {
                assert(all[i] == rest[i]);
            }
        }
    }
}

/// An index entry points to the start of a batch, and the entries before that
/// batch come before the offset that it is for.
proof fn lemma_mark_splits(
    b: Seq<u8>,
    base: u64,
    interval: u32,
    first: nat,
    position: nat,
    k: int,
)
    requires
        valid_len(b) == b.len(),
        first + stored_entries(b).len() <= u64::MAX,
        position + b.len() <= u64::MAX,
        0 <= k < stored_marks(b, base, interval, first, position).len(),
    ensures
        ({
            let (o, p) = stored_marks(b, base, interval, first, position)[k];
            let q = p - position;
            &&& 0 <= q <= b.len()
            &&& valid_len(b.take(q)) == q
            &&& valid_len(b.skip(q)) == b.len() - q
            &&& stored_entries(b) == stored_entries(b.take(q)) + stored_entries(b.skip(q))
            &&& first + stored_entries(b.take(q)).len() <= o
        }),
    decreases b.len(),
{
    let front = index_marks(base, interval, first, front_count(b), position);
    let size = front_size(b);
    let rest = b.skip(size);
    let (o, p) = stored_marks(b, base, interval, first, position)[k];
    let q = p - position;
    lemma_frame_entries_len(front_frames(b), front_count(b));
    if k < front.len() {
        lemma_mark_positions(base, interval, first, front_count(b), position);
        lemma_marks_sorted(base, interval, first, front_count(b), position);
        assert(stored_marks(b, base, interval, first, position)[k] == front[k]);
        assert(b.take(0).len() == 0);
        assert(!front_valid(b.take(0)));
        assert(b.skip(0) =~= b);
        assert(stored_entries(b.take(0)) + stored_entries(b) =~= stored_entries(b));
    } else {
        let first1 = first + front_count(b);
        let position1 = (position + size) as nat;
        lemma_mark_splits(rest, base, interval, first1, position1, k - front.len());
        assert(stored_marks(b, base, interval, first, position)[k] == stored_marks(
            rest,
            base,
            interval,
            first1,
            position1,
        )[k - front.len()]);
        let q1 = p - position1;
        let a = b.take(size);
        lemma_front_alone(b);
        lemma_stored_extend(a, rest.take(q1), base, interval, first, position);
        assert(b.take(q) =~= a + rest.take(q1));
        assert(b.skip(q) =~= rest.skip(q1));
        assert(stored_entries(b) =~= stored_entries(b.take(q)) + stored_entries(b.skip(q)));
    }
}

proof fn lemma_floor_member(entries: Seq<(u64, u64)>, target: u64) -> (k: int)
    requires
        floor_position(entries, target) is Some,
    ensures
        0 <= k < entries.len(),
        entries[k].0 <= target,
        floor_position(entries, target) == Some(entries[k].1),
    decreases entries.len(),
{
    if entries.last().0 <= target {
        entries.len() - 1
    } else {
        lemma_floor_member(entries.drop_last(), target)
    }
}

// ---------------------------------------------------------------------------
// Laws
// ---------------------------------------------------------------------------
/// The index starts a read at a batch that the wanted entries do not precede.
proof fn lemma_read_position(seg: SegmentView, file: Seq<u8>, start: u64)
    requires
        seg.holds(file),
    ensures
        ({
            let p = seg.read_position(start) as int;
            &&& 0 <= p <= file.len()
            &&& valid_len(file.take(p)) == p
            &&& p == 0 || seg.base_offset + stored_entries(file.take(p)).len() <= start
        }),
{
    if floor_position(seg.index.entries, start) is Some {
        let k = lemma_floor_member(seg.index.entries, start);
        lemma_mark_splits(
            file,
            seg.base_offset,
            seg.index.interval,
            seg.base_offset as nat,
            0,
            k,
        );
    } else {
        assert(!front_valid(file.take(0)));
    }
}

/// Reading from such a batch through the undamaged batches `good`.
proof fn lemma_read_split(
    good: Seq<u8>,
    rest: Seq<u8>,
    p: int,
    size: nat,
    base: nat,
    start: u64,
    end: u64,
)
    requires
        0 <= p <= good.len() <= size,
        valid_len(good) == good.len(),
        valid_len(good.take(p)) == p,
        numbered(stored_entries(good), base),
        base + stored_entries(good.take(p)).len() <= start || p == 0,
        start < end,
    ensures
        ({
            let n = stored_entries(good).len();
            let found = between(stored_entries(good), start, end);
            let next = if stored_entries(good.take(p)).len() == n {
                base
            } else {
                base + n
            };
            read_outcome((good + rest).skip(p), p as nat, size, base, start, end, seq![]) == (
            if n > 0 && base + n > end {
                ReadOutcome::Entries(found)
            } else {
                read_outcome(rest, good.len(), size, next, start, end, found)
            })
        }),
{
    let all = stored_entries(good);
    let before = stored_entries(good.take(p));
    let tail = good.skip(p);
    let after = stored_entries(tail);
    lemma_stored_extend(good.take(p), tail, 0, 0, 0, 0);
    assert(good.take(p) + tail =~= good);
    assert((good + rest).skip(p) =~= tail + rest);
    lemma_numbered_skip(all, base, before.len());
    assert(all.skip(before.len() as int) =~= after);
    assert(all.take(before.len() as int) =~= before);
    lemma_read_through(
        tail,
        rest,
        p as nat,
        size,
        base,
        base + before.len(),
        start,
        end,
        seq![],
    );
    assert(seq![] + selected(after, start, end) =~= selected(after, start, end));
    lemma_reaches_numbered(after, base + before.len(), end);
    lemma_selected_numbered(after, base + before.len(), start, end);
    lemma_between_concat(before, after, start, end);
    if p == 0 {
        lemma_nothing_stored(good.take(p), 0, 0, 0, 0);
    }
    lemma_between_empty(before, start, end);
    assert(between(all, start, end) =~= between(after, start, end));
}

/// A read of a segment whose file is undamaged gives exactly the entries of
/// the file with the offsets asked for, wherever the index says to start.
pub proof fn law_read_returns_stored(seg: SegmentView, file: Seq<u8>, start: u64, end: u64)
    requires
        seg.holds(file),
    ensures
        seg.read_file(file, start, end) == ReadOutcome::Entries(
            between(stored_entries(file), start, end),
        ),
{
    let all = stored_entries(file);
    if start >= end || start >= seg.next_offset {
        lemma_between_empty(all, start, end);
    } else {
        let effective = seg.read_end(end);
        let p = seg.read_position(start) as int;
        lemma_read_position(seg, file, start);
        lemma_read_split(
            file,
            seq![],
            p,
            file.len(),
            seg.base_offset as nat,
            start,
            effective,
        );
        assert(file + seq![] =~= file);
        lemma_between_bound(all, start, end, effective);
    }
}

/// A batch behind the undamaged batches `good` does not matter to a read that
/// ends before its entries: whatever stands there now in place of what the
/// segment wrote, the read gives exactly the entries asked for.
pub proof fn law_read_before_damage(
    seg: SegmentView,
    good: Seq<u8>,
    lost: Seq<u8>,
    bad: Seq<u8>,
    start: u64,
    end: u64,
)
    requires
        seg.holds(good + lost),
        valid_len(good) == good.len(),
        end <= seg.base_offset + stored_entries(good).len(),
    ensures
        seg.read_file(good + bad, start, end) == ReadOutcome::Entries(
            between(stored_entries(good + lost), start, end),
        ),
        between(stored_entries(good + lost), start, end) == between(
            stored_entries(good),
            start,
            end,
        ),
{
    let file = good + lost;
    let base = seg.base_offset as nat;
    let all = stored_entries(file);
    let kept = stored_entries(good);
    let after = stored_entries(lost);
    lemma_stored_extend(good, lost, 0, 0, 0, 0);
    lemma_numbered_skip(all, base, kept.len());
    assert(all.take(kept.len() as int) =~= kept);
    assert(all.skip(kept.len() as int) =~= after);
    lemma_between_concat(kept, after, start, end);
    lemma_between_empty(after, start, end);
    assert(between(all, start, end) =~= between(kept, start, end));
    if start >= end {
        lemma_between_empty(kept, start, end);
    } else {
        let p = seg.read_position(start) as int;
        lemma_read_position(seg, file, start);
        lemma_prefixes(good, lost, p);
        lemma_read_split(good, bad, p, file.len(), base, start, end);
    }
}

/// A valid part of a file with no more entries than the valid part `good` does
/// not end behind it, unless by batches without entries.
proof fn lemma_prefixes(good: Seq<u8>, lost: Seq<u8>, p: int)
    requires
        valid_len(good) == good.len(),
        0 <= p <= good.len() + lost.len(),
        valid_len((good + lost).take(p)) == p,
    ensures
        p <= good.len() ==> (good + lost).take(p) == good.take(p),
        p > good.len() ==> {
            let y = lost.take(p - good.len());
            &&& valid_len(y) == y.len()
            &&& stored_entries((good + lost).take(p)) == stored_entries(good) + stored_entries(y)
        },
{
    if p > good.len() {
        let y = lost.take(p - good.len());
        assert((good + lost).take(p) =~= good + y);
        lemma_stored_extend(good, y, 0, 0, 0, 0);
    } else {
        assert((good + lost).take(p) =~= good.take(p));
    }
}

/// What a reader has to say of the bytes at the place of a batch, where they
/// are not what was written there.
pub open spec fn damage(b: Seq<u8>) -> Option<BatchFault> {
    if !length_plausible(b) {
        Some(BatchFault::InvalidLength(front_length(b)))
    } else if front_size(b) > b.len() {
        Some(BatchFault::ShortFile)
    } else if front_checksum(b) != crc32c_of(front_payload(b)) {
        Some(
            BatchFault::ChecksumMismatch {
                stored: front_checksum(b),
                computed: crc32c_of(front_payload(b)),
            },
        )
    } else {
        None
    }
}

/// A read that needs an entry of a damaged batch, and none behind that batch
/// alone, reports the damage and where it is.
pub proof fn law_read_reports_damage(
    seg: SegmentView,
    good: Seq<u8>,
    lost: Seq<u8>,
    bad: Seq<u8>,
    start: u64,
    end: u64,
)
    requires
        seg.holds(good + lost),
        valid_len(good) == good.len(),
        front_valid(lost),
        front_count(lost) > 0,
        bad.len() >= 4,
        damage(bad) is Some,
        start <= seg.base_offset + stored_entries(good).len() < end,
    ensures
        seg.read_file(good + bad, start, end) == (ReadOutcome::Faulty {
            fault: damage(bad)->0,
            at: good.len(),
        }),
{
    let file = good + lost;
    let base = seg.base_offset as nat;
    let all = stored_entries(file);
    let kept = stored_entries(good);
    let after = stored_entries(lost);
    let p = seg.read_position(start) as int;
    let effective = seg.read_end(end);
    lemma_stored_extend(good, lost, 0, 0, 0, 0);
    lemma_frame_entries_len(front_frames(lost), front_count(lost));
    lemma_numbered_skip(all, base, kept.len());
    assert(all.take(kept.len() as int) =~= kept);
    lemma_read_position(seg, file, start);
    lemma_prefixes(good, lost, p);
    if p > good.len() {
        let y = lost.take(p - good.len());
        lemma_front_prefix(lost, y);
    }
    lemma_read_split(good, bad, p, file.len(), base, start, effective);
}

/// Valid batches that another file starts with start with its first batch.
proof fn lemma_front_prefix(b: Seq<u8>, y: Seq<u8>)
    requires
        front_valid(b),
        y.is_prefix_of(b),
        y.len() > 0,
        valid_len(y) == y.len(),
    ensures
        stored_entries(y).len() >= front_count(b),
{
    assert(front_valid(y));
    lemma_front_extend(y, b.skip(y.len() as int));
    assert(y + b.skip(y.len() as int) =~= b);
    lemma_frame_entries_len(front_frames(y), front_count(y));
}

/// A later end changes nothing where no entry lies between the two.
proof fn lemma_between_bound(entries: Seq<LogEntryView>, start: u64, end: u64, effective: u64)
    requires
        effective <= end,
        forall|i: int|
            0 <= i < entries.len() ==> (#[trigger] entries[i]).offset < effective
                || entries[i].offset >= end,
    ensures
        between(entries, start, effective) == between(entries, start, end),
    decreases entries.len(),
{
    reveal(Seq::filter);
    if entries.len() > 0 {
        let rest = entries.drop_last();
        assert forall|i: int| 0 <= i < rest.len() implies (#[trigger] rest[i]).offset < effective
            || rest[i].offset >= end by {
            assert(rest[i] == entries[i]);
        }
        lemma_between_bound(rest, start, end, effective);
        assert(entries.last() == entries[entries.len() - 1]);
    }
}

/// Appending a batch adds its entries to the file, at its end, and keeps the
/// segment and its file in step.
pub proof fn law_append_adds_entries(seg: SegmentView, file: Seq<u8>, entries: Seq<LogEntryView>)
    requires
        seg.holds(file),
        entries.len() > 0,
        numbered(entries, seg.next_offset as nat),
        batch_fits(entries),
        seg.next_offset + entries.len() <= u64::MAX,
        file.len() + batch_bytes(encodings(entries)).len() <= u64::MAX,
    ensures
        ({
            let w = seg.batch_write(encodings(entries));
            &&& w.position == file.len()
            &&& w.size == w.bytes.len()
            &&& seg.committed(w).holds(file + w.bytes)
            &&& stored_entries(file + w.bytes) == stored_entries(file) + entries
        }),
{
    let base = seg.base_offset;
    let interval = seg.index.interval;
    let datas = encodings(entries);
    let w = seg.batch_write(datas);
    let b = batch_bytes(datas);
    lemma_batch_parse(entries, base, interval, seg.next_offset as nat, file.len());
    lemma_stored_extend(file, b, base, interval, base as nat, 0);
    let all = stored_entries(file + b);
    assert forall|i: int| 0 <= i < all.len() implies (#[trigger] all[i]).offset == base + i by {
        let n = stored_entries(file).len();
        if i < n {
            assert(all[i] == stored_entries(file)[i]);
        } else {
            assert(all[i] == entries[i - n]);
        }
    }
    assert(seg.committed(w).index.entries =~= stored_marks(
        file + b,
        base,
        interval,
        base as nat,
        0,
    ));
    assert(seg.committed(w) =~= SegmentView::recovered(base, interval, file + b));
}

/// Opening the file of a segment gives the segment back, whatever torn or
/// damaged batch was left behind its entries.
pub proof fn law_open_restores(seg: SegmentView, file: Seq<u8>, torn: Seq<u8>)
    requires
        seg.holds(file),
        !front_valid(torn),
    ensures
        SegmentView::recovered(seg.base_offset, seg.index.interval, file + torn) == seg,
        stored_entries(file + torn) == stored_entries(file),
{
    lemma_stored_extend(
        file,
        torn,
        seg.base_offset,
        seg.index.interval,
        seg.base_offset as nat,
        0,
    );
    assert(stored_entries(file + torn) =~= stored_entries(file));
    assert(SegmentView::recovered(seg.base_offset, seg.index.interval, file + torn) =~= seg);
}

/// A file that was cut behind some of its batches is that of a segment with
/// the entries before the cut.
pub proof fn lemma_prefix_holds(seg: SegmentView, good: Seq<u8>, lost: Seq<u8>)
    requires
        seg.holds(good + lost),
        valid_len(good) == good.len(),
    ensures
        SegmentView::recovered(seg.base_offset, seg.index.interval, good).holds(good),
        stored_entries(good + lost) == stored_entries(good) + stored_entries(lost),
{
    let all = stored_entries(good + lost);
    let kept = stored_entries(good);
    lemma_stored_extend(good, lost, 0, 0, 0, 0);
    lemma_numbered_skip(all, seg.base_offset as nat, kept.len());
    assert(all.take(kept.len() as int) =~= kept);
}

/// Cutting a file to its valid part loses none of its entries, and opening it
/// again finds nothing more to cut.
pub proof fn law_open_is_idempotent(file: Seq<u8>)
    ensures
        valid_len(file) <= file.len(),
        valid_len(file.take(valid_len(file) as int)) == valid_len(file),
        stored_entries(file.take(valid_len(file) as int)) == stored_entries(file),
    decreases file.len(),
{
    if front_valid(file) {
        let size = front_size(file);
        let rest = file.skip(size);
        law_open_is_idempotent(rest);
        lemma_front_alone(file);
        let a = file.take(size);
        let kept = rest.take(valid_len(rest) as int);
        lemma_stored_extend(a, kept, 0, 0, 0, 0);
        assert(file.take(valid_len(file) as int) =~= a + kept);
        assert(stored_entries(a + kept) =~= stored_entries(file));
    } else {
        let none = file.take(0);
        assert(none.len() == 0);
        assert(!front_valid(none));
    }
}

/// An empty segment holds an empty file.
pub proof fn law_fresh_holds_nothing(base: u64, interval: u32)
    ensures
        SegmentView::fresh(base, interval).holds(seq![]),
        stored_entries(seq![]) == Seq::<LogEntryView>::empty(),
{
    assert(!front_valid(seq![]));
    assert(SegmentView::fresh(base, interval) =~= SegmentView::recovered(base, interval, seq![]));
}

} // verus!
