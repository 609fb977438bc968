//! What the format of log files and the planning of writes promise.
use vstd::prelude::*;

use crate::codec::{crc32c_of, le_bytes, le_value, lemma_le_bytes_len, lemma_u32_round_trip};
use crate::log_entry::LogEntryView;
use crate::segment::{
    batch_bytes, batch_payload, frame, frames, frames_size, front_valid, index_marks,
    lemma_frames_len, stored_entries, valid_len, BatchFault, SegmentView,
};
use crate::segment_index::floor_position;
use crate::segment_laws::damage;
use crate::segment_log::{
    append_complaint, batch_count, first_gap, must_roll, planned, LogWriteView, SegmentLogConfig,
};

verus! {

/// A batch starts with its length without these four bytes, then the checksum
/// of all that follows, then the number of its entries, then their frames.
pub proof fn law_batch_layout(datas: Seq<Seq<u8>>)
    requires
        datas.len() <= u32::MAX,
        8 + frames_size(datas) <= u32::MAX,
    ensures
        ({
            let b = batch_bytes(datas);
            &&& b.len() == 12 + frames_size(datas)
            &&& le_value(b.take(4)) == b.len() - 4
            &&& le_value(b.subrange(4, 8)) == crc32c_of(b.skip(8))
            &&& le_value(b.subrange(8, 12)) == datas.len()
            &&& b.skip(12) == frames(datas)
        }),
{
    let b = batch_bytes(datas);
    let payload = batch_payload(datas);
    let length = (4 + payload.len()) as u32;
    lemma_frames_len(datas);
    lemma_le_bytes_len((datas.len() as u32) as nat, 4);
    lemma_le_bytes_len(length as nat, 4);
    lemma_le_bytes_len(crc32c_of(payload) as nat, 4);
    lemma_u32_round_trip(length);
    lemma_u32_round_trip(crc32c_of(payload));
    lemma_u32_round_trip(datas.len() as u32);
    assert(b.take(4) =~= le_bytes(length as nat, 4));
    assert(b.subrange(4, 8) =~= le_bytes(crc32c_of(payload) as nat, 4));
    assert(b.skip(8) =~= payload);
    assert(b.subrange(8, 12) =~= le_bytes((datas.len() as u32) as nat, 4));
    assert(b.skip(12) =~= frames(datas));
}

/// The frame of an entry is its length and then its bytes.
pub proof fn law_frame_layout(data: Seq<u8>)
    requires
        data.len() <= u32::MAX,
    ensures
        frame(data).len() == 4 + data.len(),
        le_value(frame(data).take(4)) == data.len(),
        frame(data).skip(4) == data,
        frames(seq![data]) == frame(data),
{
    lemma_le_bytes_len((data.len() as u32) as nat, 4);
    lemma_u32_round_trip(data.len() as u32);
    assert(frame(data).take(4) =~= le_bytes((data.len() as u32) as nat, 4));
    assert(frame(data).skip(4) =~= data);
    assert(seq![data].skip(1) =~= Seq::<Seq<u8>>::empty());
    assert(frames(seq![data].skip(1)) =~= Seq::<u8>::empty());
    assert(frames(seq![data]) =~= frame(data));
}

/// Bytes count as a batch only where their length is that of a batch, all of it
/// is there, and the checksum is that of what it covers. A batch whose checksum
/// differs holds nothing and is reported as such.
pub proof fn law_checksum_guards(b: Seq<u8>)
    ensures
        front_valid(b) ==> {
            let n = le_value(b.take(4));
            &&& b.len() >= 12
            &&& 8 <= n && n <= 0x400_0000
            &&& 4 + n <= b.len()
            &&& le_value(b.subrange(4, 8)) == crc32c_of(b.subrange(8, 4 + n as int))
        },
        ({
            let n = le_value(b.take(4));
            b.len() >= 12 && 8 <= n && n <= 0x400_0000 && 4 + n <= b.len() && le_value(
                b.subrange(4, 8),
            ) != crc32c_of(b.subrange(8, 4 + n as int)) ==> {
                &&& stored_entries(b).len() == 0
                &&& valid_len(b) == 0
                &&& damage(b) matches Some(BatchFault::ChecksumMismatch { stored, computed })
                    && stored == le_value(b.subrange(4, 8)) && computed == crc32c_of(
                    b.subrange(8, 4 + n as int),
                )
            }
        }),
{
}

/// Every entry of a batch whose distance from the start of the segment the
/// interval divides is in the index, at the place of the batch, and no other.
pub proof fn law_index_marks(base: u64, interval: u32, first: nat, n: nat, position: nat)
    requires
        interval > 0,
        base <= first,
        first + n <= u64::MAX,
        position <= u64::MAX,
    ensures
        forall|o: u64, p: u64| #[trigger]
            index_marks(base, interval, first, n, position).contains((o, p)) <==> {
                &&& first <= o && o < first + n
                &&& (o - base) % (interval as int) == 0
                &&& p == position
            },
    decreases n,
{
    if n > 0 {
        law_index_marks(base, interval, first, (n - 1) as nat, position);
        let rest = index_marks(base, interval, first, (n - 1) as nat, position);
        let all = index_marks(base, interval, first, n, position);
        let last = ((first + n - 1) as u64, position as u64);
        assert forall|o: u64, p: u64| #[trigger] all.contains((o, p)) <==> {
            &&& first <= o && o < first + n
            &&& (o - base) % (interval as int) == 0
            &&& p == position
        } by {
            if rest.contains((o, p)) {
                let k = choose|k: int| 0 <= k < rest.len() && rest[k] == (o, p);
                assert(all[k] == (o, p));
            }
            if all.contains((o, p)) {
                let k = choose|k: int| 0 <= k < all.len() && all[k] == (o, p);
                if k < rest.len() {
                    assert(rest[k] == (o, p));
                    assert(rest.contains((o, p)));
                }
            }
            if (o, p) == last && (o - base) % (interval as int) == 0 {
                assert(all[rest.len() as int] == (o, p));
            }
        }
    }
}

/// A look-up in the index finds the place of the last entry that is not behind
/// the target, and nothing exactly if all are behind it.
pub proof fn law_index_floor(entries: Seq<(u64, u64)>, target: u64)
    ensures
        floor_position(entries, target) is None <==> (forall|i: int|
            0 <= i < entries.len() ==> (#[trigger] entries[i]).0 > target),
        floor_position(entries, target) matches Some(p) ==> exists|k: int|
            {
                &&& 0 <= k < entries.len()
                &&& (#[trigger] entries[k]).0 <= target
                &&& entries[k].1 == p
                &&& forall|j: int| k < j < entries.len() ==> (#[trigger] entries[j]).0 > target
            },
    decreases entries.len(),
{
    if entries.len() > 0 {
        let rest = entries.drop_last();
        let n = entries.len() - 1;
        law_index_floor(rest, target);
        assert(entries[n] == entries.last());
        if entries.last().0 <= target {
            assert(entries[n].0 <= target && entries[n].1 == entries.last().1);
        } else if floor_position(rest, target) is Some {
            let p = floor_position(rest, target)->0;
            let k = choose|k: int|
                {
                    &&& 0 <= k < rest.len()
                    &&& (#[trigger] rest[k]).0 <= target
                    &&& rest[k].1 == p
                    &&& forall|j: int| k < j < rest.len() ==> (#[trigger] rest[j]).0 > target
                };
            assert(entries[k].0 <= target && entries[k].1 == p);
            assert forall|j: int| k < j < entries.len() implies (#[trigger] entries[j]).0
                > target by {
                if j < n {
                    assert(rest[j].0 > target);
                }
            }
        } else {
            assert forall|i: int| 0 <= i < entries.len() implies (#[trigger] entries[i]).0
                > target by {
                if i < n {
                    assert(rest[i].0 > target);
                }
            }
        }
    }
}

/// A batch takes one entry in any case and then as many as fit: one more would
/// make the file too large.
pub proof fn law_batch_takes_what_fits(size: nat, max: nat, datas: Seq<Seq<u8>>, n: nat)
    requires
        1 <= n <= datas.len(),
        n == 1 || size + 12 + frames_size(datas.take(n as int)) <= max,
    ensures
        ({
            let count = batch_count(size, max, datas, n);
            &&& n <= count <= datas.len()
            &&& count > 1 ==> size + 12 + frames_size(datas.take(count as int)) <= max
            &&& count < datas.len() ==> size + 12 + frames_size(datas.take(count as int + 1))
                > max
        }),
    decreases datas.len() - n,
{
    if n < datas.len() && size + 12 + frames_size(datas.take(n as int + 1)) <= max {
        law_batch_takes_what_fits(size, max, datas, n + 1);
    }
}

/// A new segment is started exactly if the last one has something in it and the
/// next entry, as a batch of its own, would make its file too large.
pub proof fn law_roll_only_when_full(
    active: SegmentView,
    config: SegmentLogConfig,
    datas: Seq<Seq<u8>>,
)
    requires
        datas.len() > 0,
        datas[0].len() <= u32::MAX - 12,
    ensures
        ({
            let writes = planned(active, config, datas);
            let full = active.file_size > 0 && active.file_size + batch_bytes(
                seq![datas[0]],
            ).len() > config.max_segment_size;
            &&& writes.len() > 0
            &&& full ==> writes[0] == (LogWriteView::Roll { base_offset: active.next_offset })
            &&& !full ==> writes[0] is Append
            &&& must_roll(active.file_size as nat, config.max_segment_size as nat, datas[0])
                <==> full
        }),
{
    let one = seq![datas[0]];
    law_frame_layout(datas[0]);
    lemma_frames_len(one);
    assert(one.skip(1) =~= Seq::<Seq<u8>>::empty());
    assert(frames_size(one) == 4 + datas[0].len()) by {
        assert(frames_size(one.skip(1)) == 0);
    }
    law_batch_layout(one);
    let max = config.max_segment_size as nat;
    let roll = must_roll(active.file_size as nat, max, datas[0]);
    let seg = if roll {
        SegmentView::fresh(active.next_offset, config.index_interval)
    } else {
        active
    };
    crate::segment_log::lemma_batch_count(seg.file_size as nat, max, datas, 1);
}

/// The gap that is found from a position on is the first, and none is found
/// exactly if all entries from there on follow each other.
pub proof fn law_gap(entries: Seq<LogEntryView>, i: nat)
    ensures
        first_gap(entries, i) matches Some(k) ==> {
            &&& i <= k && k + 1 < entries.len()
            &&& entries[k as int + 1].offset != entries[k as int].offset + 1
            &&& forall|j: int|
                i <= j < k ==> (#[trigger] entries[j + 1]).offset == entries[j].offset + 1
        },
        first_gap(entries, i) is None ==> forall|j: int|
            i <= j < entries.len() - 1 ==> (#[trigger] entries[j + 1]).offset
                == entries[j].offset + 1,
    decreases entries.len() - i,
{
    if i + 1 < entries.len() && entries[i as int + 1].offset == entries[i as int].offset + 1 {
        law_gap(entries, i + 1);
        assert forall|j: int|
            i <= j < (match first_gap(entries, i) {
                Some(k) => k as int,
                None => entries.len() - 1,
            }) implies (#[trigger] entries[j + 1]).offset == entries[j].offset + 1 by {
            if j > i {
                assert(entries[j + 1].offset == entries[j].offset + 1);
            }
        }
    }
}

/// Entries without a gap count up from their first offset.
pub proof fn lemma_no_gap_counts(entries: Seq<LogEntryView>, from: nat)
    requires
        first_gap(entries, 0) is None,
        entries.len() > 0,
        entries[0].offset == from,
    ensures
        forall|i: int| 0 <= i < entries.len() ==> (#[trigger] entries[i]).offset == from + i,
{
    law_gap(entries, 0);
    assert forall|i: int| 0 <= i < entries.len() implies (#[trigger] entries[i]).offset == from
        + i by {
        lemma_counts(entries, from, i);
    }
}

proof fn lemma_counts(entries: Seq<LogEntryView>, from: nat, i: int)
    requires
        0 <= i < entries.len(),
        entries[0].offset == from,
        forall|j: int|
            0 <= j < entries.len() - 1 ==> (#[trigger] entries[j + 1]).offset == entries[j].offset
                + 1,
    ensures
        entries[i].offset == from + i,
    decreases i,
{
    if i > 0 {
        lemma_counts(entries, from, i - 1);
        assert(entries[(i - 1) + 1].offset == entries[i - 1].offset + 1);
    }
}

/// The log takes entries exactly if they count up from its end.
pub proof fn law_append_continues_log(end: u64, entries: Seq<LogEntryView>)
    ensures
        append_complaint(end, entries) is None <==> (forall|i: int|
            0 <= i < entries.len() ==> (#[trigger] entries[i]).offset == end + i),
{
    if entries.len() > 0 {
        law_gap(entries, 0);
        if append_complaint(end, entries) is None {
            lemma_no_gap_counts(entries, end as nat);
        } else if forall|i: int|
            0 <= i < entries.len() ==> (#[trigger] entries[i]).offset == end + i {
            assert(entries[0].offset == end);
            let i = first_gap(entries, 0)->0 as int;
            assert(entries[i].offset == end + i);
            assert(entries[i + 1].offset == end + i + 1);
        }
    }
}

/// A configuration is in order exactly if segments may hold something and some
/// entries are indexed.
pub proof fn law_segment_config(config: SegmentLogConfig)
    ensures
        config.complaint() is None <==> config.max_segment_size > 0 && config.index_interval > 0,
{
}

} // verus!
