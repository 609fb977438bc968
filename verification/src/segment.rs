//! Segments of the log: the format of their files, what is written to them,
//! and what is read back.
//!
//! A log file is a row of batches:
//!
//! ```text
//! batch_len    u32   how many bytes follow: checksum and payload
//! crc32c       u32   checksum of the payload
//! num_entries  u32   the payload starts here
//! frames             one per entry: entry_len u32, entry bytes
//! ```
use vstd::prelude::*;
use vstd::slice::slice_subrange;

use crate::codec::{append_u32, checksum, crc32c_of, le_bytes, le_value, read_u32};
use crate::error::{IoFault, IoFaultKind, IoFaultView};
use crate::log_entry::{entry_views, lemma_entry_views_push, LogEntry, LogEntryView};
use crate::segment_index::{floor_position, offsets_sorted, SparseIndex, SparseIndexView};
use crate::text::{
    append_decimal, append_hex, decimal, hex_digits, zero_padded, zero_padded_decimal,
};

verus! {

/// Bytes of a batch before its frames.
pub const BATCH_HEADER_LEN: u64 = 12;

/// The largest `batch_len` that is taken for a batch (64 MiB).
pub const MAX_BATCH_DATA: u32 = 64 * 1024 * 1024;

/// The name of a segment's files without extension: its base offset in twenty
/// digits.
pub open spec fn segment_name(base_offset: u64) -> Seq<char> {
    zero_padded(decimal(base_offset as nat), 20)
}

/// The name of a segment's files without extension.
pub fn segment_filename(base_offset: u64) -> (s: String)
    ensures
        s@ == segment_name(base_offset),
{
    zero_padded_decimal(base_offset, 20)
}

/// A log entry in the form in which it is written.
#[derive(Debug)]
pub struct SerializedEntry {
    pub data: Vec<u8>,
}

/// The bytes of a list of entries.
pub open spec fn data_views(entries: Seq<SerializedEntry>) -> Seq<Seq<u8>> {
    entries.map_values(|e: SerializedEntry| e.data@)
}

/// The bytes of entries, each encoded.
pub open spec fn encodings(entries: Seq<LogEntryView>) -> Seq<Seq<u8>> {
    entries.map_values(|e: LogEntryView| e.encoding())
}

/// An entry behind its length.
pub open spec fn frame(data: Seq<u8>) -> Seq<u8> {
    le_bytes((data.len() as u32) as nat, 4) + data
}

/// The frames of entries, one after the other.
pub open spec fn frames(datas: Seq<Seq<u8>>) -> Seq<u8>
    decreases datas.len(),
{
    if datas.len() == 0 {
        seq![]
    } else {
        frame(datas[0]) + frames(datas.skip(1))
    }
}

/// How many bytes the frames of entries take.
pub open spec fn frames_size(datas: Seq<Seq<u8>>) -> nat
    decreases datas.len(),
{
    if datas.len() == 0 {
        0
    } else {
        4 + datas[0].len() + frames_size(datas.skip(1))
    }
}

/// The part of a batch that its checksum covers.
pub open spec fn batch_payload(datas: Seq<Seq<u8>>) -> Seq<u8> {
    le_bytes((datas.len() as u32) as nat, 4) + frames(datas)
}

/// The length field of a batch.
pub open spec fn batch_length(payload: Seq<u8>) -> u32 {
    (4 + payload.len()) as u32
}

/// A batch.
pub open spec fn batch_bytes(datas: Seq<Seq<u8>>) -> Seq<u8> {
    let payload = batch_payload(datas);
    le_bytes(batch_length(payload) as nat, 4) + le_bytes(crc32c_of(payload) as nat, 4) + payload
}

pub proof fn lemma_frames_push(datas: Seq<Seq<u8>>, d: Seq<u8>)
    ensures
        frames(datas.push(d)) == frames(datas) + frame(d),
        frames_size(datas.push(d)) == frames_size(datas) + 4 + d.len(),
    decreases datas.len(),
{
    if datas.len() == 0 {
        assert(datas.push(d).skip(1) =~= datas);
        assert(frames(datas.push(d)) =~= frames(datas) + frame(d));
    } else {
        assert(datas.push(d).skip(1) =~= datas.skip(1).push(d));
        lemma_frames_push(datas.skip(1), d);
        assert(frames(datas.push(d)) =~= frames(datas) + frame(d));
    }
}

pub proof fn lemma_frames_len(datas: Seq<Seq<u8>>)
    ensures
        frames(datas).len() == frames_size(datas),
        frames_size(datas) >= 4 * datas.len(),
        batch_bytes(datas).len() == 12 + frames_size(datas),
    decreases datas.len(),
{
    crate::codec::lemma_le_bytes_len((datas.len() as u32) as nat, 4);
    let payload = batch_payload(datas);
    crate::codec::lemma_le_bytes_len(batch_length(payload) as nat, 4);
    crate::codec::lemma_le_bytes_len(crc32c_of(payload) as nat, 4);
    if datas.len() > 0 {
        crate::codec::lemma_le_bytes_len((datas[0].len() as u32) as nat, 4);
        lemma_frames_len(datas.skip(1));
    }
}

/// The size of frames never shrinks when frames are added.
pub proof fn lemma_frames_size_prefix(datas: Seq<Seq<u8>>, n: int)
    requires
        0 <= n <= datas.len(),
    ensures
        frames_size(datas.take(n)) <= frames_size(datas),
    decreases datas.len() - n,
{
    if n < datas.len() {
        assert(datas.take(n + 1) =~= datas.take(n).push(datas[n]));
        lemma_frames_push(datas.take(n), datas[n]);
        lemma_frames_size_prefix(datas, n + 1);
    } else {
        assert(datas.take(n) =~= datas);
    }
}

impl SerializedEntry {
    /// Encodes an entry. This does not fail.
    pub fn from_entry(entry: &LogEntry) -> (r: Result<Self, IoFault>)
        ensures
            r matches Ok(s) && s.data@ == entry@.encoding(),
    {
        Ok(SerializedEntry { data: entry.encode() })
    }

    /// How many bytes the entry takes in a batch.
    pub fn frame_size(&self) -> (n: u64)
        requires
            self.data@.len() + 4 <= u64::MAX,
        ensures
            n == 4 + self.data@.len(),
    {
        4 + self.data.len() as u64
    }
}

/// How many bytes a batch of these entries takes.
pub fn batch_disk_size(entries: &[SerializedEntry]) -> (n: u64)
    requires
        12 + frames_size(data_views(entries@)) <= u64::MAX,
    ensures
        n == 12 + frames_size(data_views(entries@)),
{
    let ghost datas = data_views(entries@);
    let mut size: u64 = 0;
    let mut i: usize = 0;
    while i < entries.len()
        invariant
            i <= entries@.len(),
            datas == data_views(entries@),
            12 + frames_size(datas) <= u64::MAX,
            size == frames_size(datas.take(i as int)),
        decreases entries@.len() - i,
    {
        proof {
            assert(datas.take(i + 1) =~= datas.take(i as int).push(datas[i as int]));
            lemma_frames_push(datas.take(i as int), datas[i as int]);
            lemma_frames_size_prefix(datas, i + 1);
        }
        size = size + entries[i].frame_size();
        i = i + 1;
    }
    assert(datas.take(i as int) =~= datas);
    BATCH_HEADER_LEN + size
}

/// Appends the bytes of `data` to `out`.
fn append_bytes(out: &mut Vec<u8>, data: &Vec<u8>)
    ensures
        final(out)@ == old(out)@ + data@,
{
    let ghost before = out@;
    let mut i: usize = 0;
    while i < data.len()
        invariant
            i <= data@.len(),
            out@ == before + data@.take(i as int),
        decreases data@.len() - i,
    {
        out.push(data[i]);
        i = i + 1;
        assert(out@ =~= before + data@.take(i as int));
    }
    assert(out@ =~= before + data@);
}

/// The batch of these entries.
fn encode_batch(entries: &[SerializedEntry]) -> (b: Vec<u8>)
    requires
        12 + frames_size(data_views(entries@)) <= usize::MAX,
    ensures
        b@ == batch_bytes(data_views(entries@)),
{
    let ghost datas = data_views(entries@);
    let mut payload: Vec<u8> = Vec::new();
    append_u32(
        &mut payload,
        #[verifier::truncate]
        (entries.len() as u32),
    );
    let ghost head = payload@;
    let mut i: usize = 0;
    assert(frames(datas.take(0)) =~= Seq::<u8>::empty());
    assert(payload@ =~= head + frames(datas.take(0)));
    while i < entries.len()
        invariant
            i <= entries@.len(),
            datas == data_views(entries@),
            payload@ == head + frames(datas.take(i as int)),
        decreases entries@.len() - i,
    {
        let ghost before = payload@;
        append_u32(
            &mut payload,
            #[verifier::truncate]
            (entries[i].data.len() as u32),
        );
        append_bytes(&mut payload, &entries[i].data);
        proof {
            assert(datas.take(i + 1) =~= datas.take(i as int).push(datas[i as int]));
            lemma_frames_push(datas.take(i as int), datas[i as int]);
            assert(payload@ =~= head + frames(datas.take(i + 1)));
        }
        i = i + 1;
    }
    assert(datas.take(i as int) =~= datas);
    assert(head =~= le_bytes((datas.len() as u32) as nat, 4));
    assert(payload@ =~= batch_payload(datas));
    proof {
        lemma_frames_len(datas);
        crate::codec::lemma_le_bytes_len((datas.len() as u32) as nat, 4);
    }
    let crc: u32 = checksum(payload.as_slice());
    let mut b: Vec<u8> = Vec::new();
    append_u32(
        &mut b,
        #[verifier::truncate]
        ((4 + payload.len()) as u32),
    );
    append_u32(&mut b, crc);
    append_bytes(&mut b, &payload);
    assert(b@ =~= batch_bytes(datas));
    b
}

/// True of a number that `interval` divides. Zero divides only zero.
pub open spec fn divides(interval: u32, n: nat) -> bool {
    if interval == 0 {
        n == 0
    } else {
        n % (interval as nat) == 0
    }
}

/// The index entries of a batch of `n` entries that starts at `first`, in the
/// file at `position`.
pub open spec fn index_marks(
    base: u64,
    interval: u32,
    first: nat,
    n: nat,
    position: nat,
) -> Seq<(u64, u64)>
    decreases n,
{
    if n == 0 {
        seq![]
    } else {
        let rest = index_marks(base, interval, first, (n - 1) as nat, position);
        let offset = (first + n - 1) as nat;
        if divides(interval, (offset - base) as nat) {
            rest.push((offset as u64, position as u64))
        } else {
            rest
        }
    }
}

/// The index entries of a batch.
fn mark_entries(base: u64, interval: u32, first: u64, n: u64, position: u64) -> (r: Vec<
    (u64, u64),
>)
    requires
        base <= first,
        first + n <= u64::MAX,
    ensures
        r@ == index_marks(base, interval, first as nat, n as nat, position as nat),
{
    let mut r: Vec<(u64, u64)> = Vec::new();
    let mut i: u64 = 0;
    while i < n
        invariant
            i <= n,
            base <= first,
            first + n <= u64::MAX,
            r@ == index_marks(base, interval, first as nat, i as nat, position as nat),
        decreases n - i,
    {
        let distance: u64 = first + i - base;
        let recorded = if interval == 0 {
            distance == 0
        } else {
            distance % (interval as u64) == 0
        };
        if recorded {
            r.push((first + i, position));
        }
        i = i + 1;
    }
    r
}

// ---------------------------------------------------------------------------
// What a file holds
// ---------------------------------------------------------------------------
/// The length field of the batch at the front of `b`.
pub open spec fn front_length(b: Seq<u8>) -> nat {
    le_value(b.take(4))
}

/// How many bytes the batch at the front of `b` takes.
pub open spec fn front_size(b: Seq<u8>) -> int {
    4 + front_length(b) as int
}

/// The checksum that is stored in the batch at the front of `b`.
pub open spec fn front_checksum(b: Seq<u8>) -> nat {
    le_value(b.subrange(4, 8))
}

/// The payload of the batch at the front of `b`.
pub open spec fn front_payload(b: Seq<u8>) -> Seq<u8> {
    b.subrange(8, front_size(b))
}

/// How many entries the batch at the front of `b` says it has.
pub open spec fn front_count(b: Seq<u8>) -> nat {
    le_value(b.subrange(8, 12))
}

/// The frames in the batch at the front of `b`.
pub open spec fn front_frames(b: Seq<u8>) -> Seq<u8> {
    b.subrange(12, front_size(b))
}

/// The length of the entry in the frame at the front of `f`.
pub open spec fn frame_length(f: Seq<u8>) -> nat {
    le_value(f.take(4))
}

/// The entry in the frame at the front of `f`, if there is one.
pub open spec fn frame_entry(f: Seq<u8>) -> Option<LogEntryView> {
    if f.len() >= 4 && 4 + frame_length(f) <= f.len() {
        LogEntryView::decoding(f.subrange(4, 4 + frame_length(f) as int))
    } else {
        None
    }
}

/// `f` starts with `n` frames that hold entries.
pub open spec fn frames_valid(f: Seq<u8>, n: nat) -> bool
    decreases n,
{
    n == 0 || (frame_entry(f) is Some && frames_valid(
        f.skip(4 + frame_length(f) as int),
        (n - 1) as nat,
    ))
}

/// The entries in the `n` frames that `f` starts with.
pub open spec fn frame_entries(f: Seq<u8>, n: nat) -> Seq<LogEntryView>
    decreases n,
{
    if n == 0 {
        seq![]
    } else {
        seq![frame_entry(f)->0] + frame_entries(
            f.skip(4 + frame_length(f) as int),
            (n - 1) as nat,
        )
    }
}

/// The length field at the front of `b` can be that of a batch.
pub open spec fn length_plausible(b: Seq<u8>) -> bool {
    8 <= front_length(b) <= MAX_BATCH_DATA
}

/// `b` starts with a whole batch that was not damaged.
pub open spec fn front_valid(b: Seq<u8>) -> bool {
    &&& b.len() >= 12
    &&& length_plausible(b)
    &&& front_size(b) <= b.len()
    &&& front_checksum(b) == crc32c_of(front_payload(b))
    &&& frames_valid(front_frames(b), front_count(b))
}

/// The entries of the valid batches that `b` starts with.
pub open spec fn stored_entries(b: Seq<u8>) -> Seq<LogEntryView>
    decreases b.len(),
{
    if front_valid(b) {
        frame_entries(front_frames(b), front_count(b)) + stored_entries(b.skip(front_size(b)))
    } else {
        seq![]
    }
}

/// How many bytes the valid batches take that `b` starts with.
pub open spec fn valid_len(b: Seq<u8>) -> nat
    decreases b.len(),
{
    if front_valid(b) {
        (front_size(b) + valid_len(b.skip(front_size(b)))) as nat
    } else {
        0
    }
}

/// The index entries of the valid batches that `b` starts with, where `b`
/// stands at `position` in its file and its first entry has the offset `first`.
pub open spec fn stored_marks(
    b: Seq<u8>,
    base: u64,
    interval: u32,
    first: nat,
    position: nat,
) -> Seq<(u64, u64)>
    decreases b.len(),
{
    if front_valid(b) {
        index_marks(base, interval, first, front_count(b), position) + stored_marks(
            b.skip(front_size(b)),
            base,
            interval,
            first + front_count(b),
            (position + front_size(b)) as nat,
        )
    } else {
        seq![]
    }
}

pub proof fn lemma_frame_entries_len(f: Seq<u8>, n: nat)
    ensures
        frame_entries(f, n).len() == n,
    decreases n,
{
    if n > 0 {
        lemma_frame_entries_len(f.skip(4 + frame_length(f) as int), (n - 1) as nat);
    }
}

// ---------------------------------------------------------------------------
// Reading
// ---------------------------------------------------------------------------
/// What is wrong with a batch that cannot be read.
pub enum BatchFault {
    /// The length field is out of range.
    InvalidLength(nat),
    /// The file ends inside the batch.
    ShortFile,
    /// The payload is not what was written.
    ChecksumMismatch { stored: nat, computed: u32 },
    /// The payload ends inside the length of an entry.
    TruncatedFrame,
    /// The payload ends inside an entry.
    TruncatedEntry,
    /// The bytes of an entry do not decode.
    Undecodable,
}

/// What becomes of reading the frames of a batch.
#[verifier::ext_equal]
pub enum FrameWalk {
    /// All frames were read. The next entry has at least the offset `next`.
    Finished { found: Seq<LogEntryView>, next: nat },
    /// An entry was reached that is not wanted any more.
    PastEnd(Seq<LogEntryView>),
    Faulty(BatchFault),
}

/// What becomes of reading a segment.
#[verifier::ext_equal]
pub enum ReadOutcome {
    Entries(Seq<LogEntryView>),
    /// The batch at the given byte cannot be read.
    Faulty { fault: BatchFault, at: nat },
}

/// Reading `n` frames for the entries from `start` to `end`, with `acc` read
/// before. The first entry has at least the offset `next`.
pub open spec fn frame_walk(
    f: Seq<u8>,
    n: nat,
    next: nat,
    start: u64,
    end: u64,
    acc: Seq<LogEntryView>,
) -> FrameWalk
    decreases n,
{
    if n == 0 {
        FrameWalk::Finished { found: acc, next }
    } else if f.len() < 4 {
        FrameWalk::Faulty(BatchFault::TruncatedFrame)
    } else if 4 + frame_length(f) > f.len() {
        FrameWalk::Faulty(BatchFault::TruncatedEntry)
    } else {
        match frame_entry(f) {
            None => FrameWalk::Faulty(BatchFault::Undecodable),
            Some(e) => if e.offset >= end {
                FrameWalk::PastEnd(acc)
            } else {
                frame_walk(
                    f.skip(4 + frame_length(f) as int),
                    (n - 1) as nat,
                    e.offset as nat + 1,
                    start,
                    end,
                    if e.offset >= start {
                        acc.push(e)
                    } else {
                        acc
                    },
                )
            },
        }
    }
}

/// Reading the batches of `b`, which stands at byte `at` of a file of `size`
/// bytes, for the entries from `start` to `end`, with `acc` read before. The
/// first entry of `b` has at least the offset `next`. Once that reaches the end
/// no further batch is looked at: what follows the last wanted entry may be
/// damaged.
pub open spec fn read_outcome(
    b: Seq<u8>,
    at: nat,
    size: nat,
    next: nat,
    start: u64,
    end: u64,
    acc: Seq<LogEntryView>,
) -> ReadOutcome
    decreases b.len(),
{
    if next >= end || at >= size || b.len() < 4 {
        ReadOutcome::Entries(acc)
    } else if !length_plausible(b) {
        ReadOutcome::Faulty { fault: BatchFault::InvalidLength(front_length(b)), at }
    } else if front_size(b) > b.len() {
        ReadOutcome::Faulty { fault: BatchFault::ShortFile, at }
    } else if front_checksum(b) != crc32c_of(front_payload(b)) {
        ReadOutcome::Faulty {
            fault: BatchFault::ChecksumMismatch {
                stored: front_checksum(b),
                computed: crc32c_of(front_payload(b)),
            },
            at,
        }
    } else {
        match frame_walk(front_frames(b), front_count(b), next, start, end, acc) {
            FrameWalk::Faulty(fault) => ReadOutcome::Faulty { fault, at },
            FrameWalk::PastEnd(found) => ReadOutcome::Entries(found),
            FrameWalk::Finished { found, next } => read_outcome(
                b.skip(front_size(b)),
                (at + front_size(b)) as nat,
                size,
                next,
                start,
                end,
                found,
            ),
        }
    }
}

/// The error that reports a fault of the batch at byte `at`. What the decoder
/// says of an entry that does not decode is left open.
pub open spec fn reports(e: IoFaultView, fault: BatchFault, at: nat) -> bool {
    match fault {
        BatchFault::InvalidLength(n) => e == (IoFaultView {
            kind: IoFaultKind::InvalidData,
            message: "corrupt batch at byte "@ + decimal(at) + ": invalid batch_len "@ + decimal(n),
        }),
        BatchFault::ShortFile => e == (IoFaultView {
            kind: IoFaultKind::UnexpectedEof,
            message: "failed to fill whole buffer"@,
        }),
        BatchFault::ChecksumMismatch { stored, computed } => e == (IoFaultView {
            kind: IoFaultKind::InvalidData,
            message: "CRC mismatch at batch byte "@ + decimal(at) + ": stored=0x"@ + hex_digits(
                stored,
                8,
            ) + " computed=0x"@ + hex_digits(computed as nat, 8),
        }),
        BatchFault::TruncatedFrame => e == (IoFaultView {
            kind: IoFaultKind::InvalidData,
            message: "truncated entry frame at byte "@ + decimal(at),
        }),
        BatchFault::TruncatedEntry => e == (IoFaultView {
            kind: IoFaultKind::InvalidData,
            message: "truncated entry data at byte "@ + decimal(at),
        }),
        BatchFault::Undecodable => e.kind == IoFaultKind::InvalidData && (
        "deserialization failed at byte "@ + decimal(at) + ": "@).is_prefix_of(e.message),
    }
}

/// `r` is the result of a read with this outcome.
pub open spec fn reads_as(r: Result<Vec<LogEntry>, IoFault>, outcome: ReadOutcome) -> bool {
    match outcome {
        ReadOutcome::Entries(found) => r matches Ok(v) && entry_views(v@) == found,
        ReadOutcome::Faulty { fault, at } => r matches Err(e) && reports(e@, fault, at),
    }
}

fn fault_at(what: &str, at: u64) -> (e: IoFault)
    ensures
        e@ == (IoFaultView {
            kind: IoFaultKind::InvalidData,
            message: what@ + decimal(at as nat),
        }),
{
    let mut m = String::from_str(what);
    append_decimal(&mut m, at);
    IoFault::new(IoFaultKind::InvalidData, m)
}

fn invalid_length(at: u64, n: u32) -> (e: IoFault)
    ensures
        reports(e@, BatchFault::InvalidLength(n as nat), at as nat),
{
    let mut m = String::from_str("corrupt batch at byte ");
    append_decimal(&mut m, at);
    m.append(": invalid batch_len ");
    append_decimal(&mut m, n as u64);
    IoFault::new(IoFaultKind::InvalidData, m)
}

fn checksum_mismatch(at: u64, stored: u32, computed: u32) -> (e: IoFault)
    ensures
        reports(
            e@,
            BatchFault::ChecksumMismatch { stored: stored as nat, computed },
            at as nat,
        ),
{
    let mut m = String::from_str("CRC mismatch at batch byte ");
    append_decimal(&mut m, at);
    m.append(": stored=0x");
    append_hex(&mut m, stored as u64, 8);
    m.append(" computed=0x");
    append_hex(&mut m, computed as u64, 8);
    IoFault::new(IoFaultKind::InvalidData, m)
}

fn undecodable(at: u64, cause: &String) -> (e: IoFault)
    ensures
        reports(e@, BatchFault::Undecodable, at as nat),
{
    let mut m = String::from_str("deserialization failed at byte ");
    append_decimal(&mut m, at);
    m.append(": ");
    let ghost prefix = m@;
    m.append(cause.as_str());
    assert(prefix.is_prefix_of(m@)) by {
        assert(m@.take(prefix.len() as int) =~= prefix);
    }
    IoFault::new(IoFaultKind::InvalidData, m)
}

/// True if the `n` frames from byte `from` to byte `to` hold entries.
fn check_frames(file: &[u8], from: usize, to: usize, n: u32) -> (b: bool)
    requires
        from <= to <= file@.len(),
    ensures
        b == frames_valid(file@.subrange(from as int, to as int), n as nat),
{
    let mut at: usize = from;
    let mut left: u32 = n;
    let ghost all = file@.subrange(from as int, to as int);
    while left > 0
        invariant
            from <= at <= to <= file@.len(),
            all == file@.subrange(from as int, to as int),
            frames_valid(all, n as nat) == frames_valid(
                file@.subrange(at as int, to as int),
                left as nat,
            ),
        decreases left,
    {
        let ghost f = file@.subrange(at as int, to as int);
        if to - at < 4 {
            return false;
        }
        let len: usize = read_u32(file, at) as usize;
        assert(f.take(4) =~= file@.subrange(at as int, at + 4));
        if len > to - at - 4 {
            return false;
        }
        let data = slice_subrange(file, at + 4, at + 4 + len);
        assert(data@ =~= f.subrange(4, 4 + len as int));
        match LogEntry::decode(data) {
            Ok(_) => {},
            Err(_) => {
                return false;
            },
        }
        assert(f.skip(4 + len as int) =~= file@.subrange(at + 4 + len, to as int));
        at = at + 4 + len;
        left = left - 1;
    }
    true
}

/// Reads the `n` frames from byte `from` to byte `to` and appends the entries
/// from `start` to `end` to `out`. Returns the offset behind the last entry
/// read, `next` if there was none, or `None` if an entry past the end was
/// reached.
fn collect_frames(
    file: &[u8],
    from: usize,
    to: usize,
    n: u32,
    batch_start: u64,
    next: u64,
    start: u64,
    end: u64,
    out: &mut Vec<LogEntry>,
) -> (r: Result<Option<u64>, IoFault>)
    requires
        from <= to <= file@.len(),
    ensures
        match frame_walk(
            file@.subrange(from as int, to as int),
            n as nat,
            next as nat,
            start,
            end,
            entry_views(old(out)@),
        ) {
            FrameWalk::Finished { found, next: after } => r matches Ok(Some(x)) && x == after
                && entry_views(final(out)@) == found,
            FrameWalk::PastEnd(found) => r == Ok::<Option<u64>, IoFault>(None) && entry_views(
                final(out)@,
            ) == found,
            FrameWalk::Faulty(fault) => r matches Err(e) && reports(
                e@,
                fault,
                batch_start as nat,
            ),
        },
{
    let mut at: usize = from;
    let mut left: u32 = n;
    let mut after: u64 = next;
    let ghost whole = frame_walk(
        file@.subrange(from as int, to as int),
        n as nat,
        next as nat,
        start,
        end,
        entry_views(out@),
    );
    while left > 0
        invariant
            from <= at <= to <= file@.len(),
            whole == frame_walk(
                file@.subrange(from as int, to as int),
                n as nat,
                next as nat,
                start,
                end,
                entry_views(old(out)@),
            ),
            whole == frame_walk(
                file@.subrange(at as int, to as int),
                left as nat,
                after as nat,
                start,
                end,
                entry_views(out@),
            ),
        decreases left,
    {
        let ghost f = file@.subrange(at as int, to as int);
        if to - at < 4 {
            return Err(fault_at("truncated entry frame at byte ", batch_start));
        }
        let len: usize = read_u32(file, at) as usize;
        assert(f.take(4) =~= file@.subrange(at as int, at + 4));
        if len > to - at - 4 {
            return Err(fault_at("truncated entry data at byte ", batch_start));
        }
        let data = slice_subrange(file, at + 4, at + 4 + len);
        assert(data@ =~= f.subrange(4, 4 + len as int));
        let entry = match LogEntry::decode(data) {
            Ok(e) => e,
            Err(cause) => {
                return Err(undecodable(batch_start, &cause));
            },
        };
        if entry.offset >= end {
            return Ok(None);
        }
        after = entry.offset + 1;
        assert(f.skip(4 + len as int) =~= file@.subrange(at + 4 + len, to as int));
        if entry.offset >= start {
            proof {
                lemma_entry_views_push(out@, entry);
            }
            out.push(entry);
        }
        at = at + 4 + len;
        left = left - 1;
    }
    Ok(Some(after))
}

// ---------------------------------------------------------------------------
// Segments
// ---------------------------------------------------------------------------
/// One append-only segment of the log. Its entries are in a log file, which it
/// says how to write and read.
#[derive(Debug)]
pub struct Segment {
    base_offset: u64,
    next_offset: u64,
    file_size: u64,
    index: SparseIndex,
}

#[verifier::ext_equal]
pub struct SegmentView {
    /// The offset of the first entry.
    pub base_offset: u64,
    /// The offset that the next entry gets.
    pub next_offset: u64,
    /// How many bytes of the log file are in use.
    pub file_size: u64,
    pub index: SparseIndexView,
}

impl View for Segment {
    type V = SegmentView;

    closed spec fn view(&self) -> SegmentView {
        SegmentView {
            base_offset: self.base_offset,
            next_offset: self.next_offset,
            file_size: self.file_size,
            index: self.index@,
        }
    }
}

/// A batch that is to be written to the log file of a segment.
#[derive(Debug)]
pub struct BatchWrite {
    /// Where in the file the batch goes.
    pub position: u64,
    pub bytes: Vec<u8>,
    /// By how much the file grows.
    pub size: u64,
    /// How many log entries the batch holds.
    pub count: u64,
    /// What goes to the index file: offsets and byte positions.
    pub marks: Vec<(u64, u64)>,
}

#[verifier::ext_equal]
pub struct BatchWriteView {
    pub position: u64,
    pub bytes: Seq<u8>,
    pub size: u64,
    pub count: u64,
    pub marks: Seq<(u64, u64)>,
}

impl View for BatchWrite {
    type V = BatchWriteView;

    open spec fn view(&self) -> BatchWriteView {
        BatchWriteView {
            position: self.position,
            bytes: self.bytes@,
            size: self.size,
            count: self.count,
            marks: self.marks@,
        }
    }
}

impl BatchWriteView {
    /// The entries of the batch come next in the segment.
    pub open spec fn follows(self, seg: SegmentView) -> bool {
        &&& seg.next_offset + self.count <= u64::MAX
        &&& offsets_sorted(self.marks)
        &&& forall|i: int|
            0 <= i < self.marks.len() ==> seg.next_offset <= (#[trigger] self.marks[i]).0
                < seg.next_offset + self.count
    }
}

impl SegmentView {
    /// A segment without entries.
    pub open spec fn fresh(base_offset: u64, interval: u32) -> Self {
        SegmentView {
            base_offset,
            next_offset: base_offset,
            file_size: 0,
            index: SparseIndexView { entries: seq![], interval },
        }
    }

    /// The segment of a log file: the valid batches at its start count.
    pub open spec fn recovered(base_offset: u64, interval: u32, file: Seq<u8>) -> Self {
        SegmentView {
            base_offset,
            next_offset: (base_offset + stored_entries(file).len()) as u64,
            file_size: valid_len(file) as u64,
            index: SparseIndexView {
                entries: stored_marks(file, base_offset, interval, base_offset as nat, 0),
                interval,
            },
        }
    }

    /// The write that appends entries. Without entries nothing is written.
    pub open spec fn batch_write(self, datas: Seq<Seq<u8>>) -> BatchWriteView {
        if datas.len() == 0 {
            BatchWriteView {
                position: self.file_size,
                bytes: seq![],
                size: 0,
                count: 0,
                marks: seq![],
            }
        } else {
            BatchWriteView {
                position: self.file_size,
                bytes: batch_bytes(datas),
                size: (4 + batch_length(batch_payload(datas))) as u64,
                count: datas.len() as u64,
                marks: index_marks(
                    self.base_offset,
                    self.index.interval,
                    self.next_offset as nat,
                    datas.len(),
                    self.file_size as nat,
                ),
            }
        }
    }

    /// The segment once a batch is on disk.
    pub open spec fn committed(self, w: BatchWriteView) -> Self {
        SegmentView {
            next_offset: (self.next_offset + w.count) as u64,
            file_size: (self.file_size + w.size) as u64,
            index: SparseIndexView { entries: self.index.entries + w.marks, ..self.index },
            ..self
        }
    }

    /// The segment without its index: all that a write depends on.
    pub open spec fn cursor(self) -> Self {
        SegmentView { index: SparseIndexView { entries: seq![], ..self.index }, ..self }
    }

    /// Where to start reading for the entry at `start`.
    pub open spec fn read_position(self, start: u64) -> u64 {
        match floor_position(self.index.entries, start) {
            Some(p) => p,
            None => 0,
        }
    }

    /// Where a read up to `end` ends: no later than the segment.
    pub open spec fn read_end(self, end: u64) -> u64 {
        if end < self.next_offset {
            end
        } else {
            self.next_offset
        }
    }

    /// Reading the entries from `start` to `end`, where `tail` is the log file
    /// from the read position on.
    pub open spec fn read_tail(self, tail: Seq<u8>, start: u64, end: u64) -> ReadOutcome {
        if start >= end || start >= self.next_offset {
            ReadOutcome::Entries(seq![])
        } else {
            read_outcome(
                tail,
                self.read_position(start) as nat,
                self.file_size as nat,
                self.base_offset as nat,
                start,
                self.read_end(end),
                seq![],
            )
        }
    }

    /// Reading the entries from `start` to `end` of the log file.
    pub open spec fn read_file(self, file: Seq<u8>, start: u64, end: u64) -> ReadOutcome {
        self.read_tail(file.skip(self.read_position(start) as int), start, end)
    }

    /// What every segment keeps.
    pub open spec fn wf(self) -> bool {
        &&& self.base_offset <= self.next_offset
        &&& offsets_sorted(self.index.entries)
        &&& forall|i: int|
            0 <= i < self.index.entries.len() ==> (#[trigger] self.index.entries[i]).0
                < self.next_offset
    }
}

pub proof fn lemma_marks_sorted(base: u64, interval: u32, first: nat, n: nat, position: nat)
    requires
        first + n <= u64::MAX,
    ensures
        offsets_sorted(index_marks(base, interval, first, n, position)),
        forall|i: int|
            0 <= i < index_marks(base, interval, first, n, position).len() ==> first
                <= (#[trigger] index_marks(base, interval, first, n, position)[i]).0 < first + n,
    decreases n,
{
    if n > 0 {
        lemma_marks_sorted(base, interval, first, (n - 1) as nat, position);
    }
}

impl Segment {
    /// A new, empty segment.
    pub fn create(base_offset: u64, index_interval: u32) -> (r: Self)
        ensures
            r@ == SegmentView::fresh(base_offset, index_interval),
            r@.wf(),
    {
        Segment {
            base_offset,
            next_offset: base_offset,
            file_size: 0,
            index: SparseIndex::create(index_interval),
        }
    }

    /// The segment of an existing log file. The batches of the file are
    /// checked one after the other. What follows the last valid one is not
    /// part of the segment: the file is to be cut to [`Segment::file_size`].
    pub fn open(base_offset: u64, index_interval: u32, file: &[u8]) -> (r: Self)
        requires
            base_offset + stored_entries(file@).len() <= u64::MAX,
        ensures
            r@ == SegmentView::recovered(base_offset, index_interval, file@),
            r@.wf(),
    {
        let mut index = SparseIndex::create(index_interval);
        let mut pos: usize = 0;
        let mut next_offset: u64 = base_offset;
        let mut more = true;
        let len: usize = file.len();
        let ghost b0 = file@;
        let ghost marks0 = stored_marks(b0, base_offset, index_interval, base_offset as nat, 0);
        assert(b0.skip(0) =~= b0);
        assert(index@.entries + marks0 =~= marks0);
        while more
            invariant
                b0 == file@,
                len == b0.len(),
                pos <= len,
                base_offset <= next_offset,
                base_offset + stored_entries(b0).len() <= u64::MAX,
                base_offset + stored_entries(b0).len() == next_offset + stored_entries(
                    b0.skip(pos as int),
                ).len(),
                valid_len(b0) == pos + valid_len(b0.skip(pos as int)),
                marks0 == stored_marks(b0, base_offset, index_interval, base_offset as nat, 0),
                index@.interval == index_interval,
                marks0 == index@.entries + stored_marks(
                    b0.skip(pos as int),
                    base_offset,
                    index_interval,
                    next_offset as nat,
                    pos as nat,
                ),
                offsets_sorted(index@.entries),
                forall|i: int|
                    0 <= i < index@.entries.len() ==> (#[trigger] index@.entries[i]).0
                        < next_offset,
                !more ==> !front_valid(b0.skip(pos as int)),
            decreases len - pos, if more { 1int } else { 0int },
        {
            let ghost b = b0.skip(pos as int);
            if len - pos < 12 {
                more = false;
                continue ;
            }
            let batch_len: u32 = read_u32(file, pos);
            assert(b.take(4) =~= b0.subrange(pos as int, pos + 4));
            if batch_len < 8 || batch_len > MAX_BATCH_DATA || batch_len as usize > len - pos - 4 {
                more = false;
                continue ;
            }
            let batch_end: usize = pos + 4 + batch_len as usize;
            let stored: u32 = read_u32(file, pos + 4);
            assert(b.subrange(4, 8) =~= b0.subrange(pos + 4, pos + 8));
            let payload = slice_subrange(file, pos + 8, batch_end);
            assert(payload@ =~= front_payload(b));
            if stored != checksum(payload) {
                more = false;
                continue ;
            }
            let count: u32 = read_u32(file, pos + 8);
            assert(b.subrange(8, 12) =~= b0.subrange(pos + 8, pos + 12));
            assert(front_frames(b) =~= b0.subrange(pos + 12, batch_end as int));
            if !check_frames(file, pos + 12, batch_end, count) {
                more = false;
                continue ;
            }
            proof {
                assert(front_valid(b));
                lemma_frame_entries_len(front_frames(b), front_count(b));
                assert(b.skip(front_size(b)) =~= b0.skip(batch_end as int));
            }
            let marks = mark_entries(
                base_offset,
                index_interval,
                next_offset,
                count as u64,
                pos as u64,
            );
            let ghost before = index@.entries;
            proof {
                lemma_marks_sorted(
                    base_offset,
                    index_interval,
                    next_offset as nat,
                    count as nat,
                    pos as nat,
                );
            }
            extend_index(&mut index, &marks);
            next_offset = next_offset + count as u64;
            pos = batch_end;
            assert(marks0 =~= index@.entries + stored_marks(
                b0.skip(pos as int),
                base_offset,
                index_interval,
                next_offset as nat,
                pos as nat,
            ));
        }
        assert(marks0 =~= index@.entries);
        Segment { base_offset, next_offset, file_size: pos as u64, index }
    }

    /// The write that appends the entries, given encoded, as one batch.
    pub fn append_batch(&self, entries: &[LogEntry], serialized: &[SerializedEntry]) -> (w:
        BatchWrite)
        requires
            self@.wf(),
            entries@.len() == serialized@.len(),
            self@.next_offset + entries@.len() <= u64::MAX,
            12 + frames_size(data_views(serialized@)) <= usize::MAX,
        ensures
            w@ == self@.batch_write(data_views(serialized@)),
            w@.follows(self@),
    {
        if entries.len() == 0 {
            return BatchWrite {
                position: self.file_size,
                bytes: Vec::new(),
                size: 0,
                count: 0,
                marks: Vec::new(),
            };
        }
        let ghost datas = data_views(serialized@);
        proof {
            lemma_frames_len(datas);
            crate::codec::lemma_le_bytes_len((datas.len() as u32) as nat, 4);
            lemma_marks_sorted(
                self@.base_offset,
                self@.index.interval,
                self@.next_offset as nat,
                datas.len(),
                self@.file_size as nat,
            );
        }
        let bytes = encode_batch(serialized);
        let count: u64 = entries.len() as u64;
        let length: u32 =
            #[verifier::truncate]
            ((bytes.len() - 4) as u32);
        let marks = mark_entries(
            self.base_offset,
            self.index.interval(),
            self.next_offset,
            count,
            self.file_size,
        );
        BatchWrite { position: self.file_size, bytes, size: 4 + length as u64, count, marks }
    }

    /// Encodes entries and says how to append them as one batch.
    pub fn append(&self, entries: &[LogEntry]) -> (r: Result<BatchWrite, IoFault>)
        requires
            self@.wf(),
            self@.next_offset + entries@.len() <= u64::MAX,
            12 + frames_size(encodings(entry_views(entries@))) <= usize::MAX,
        ensures
            r matches Ok(w) && w@ == self@.batch_write(encodings(entry_views(entries@)))
                && w@.follows(self@),
    {
        let serialized = serialize_all(entries);
        Ok(self.append_batch(entries, serialized.as_slice()))
    }

    /// Take note that a batch is on disk.
    pub fn commit(&mut self, w: &BatchWrite)
        requires
            old(self)@.wf(),
            w@.follows(old(self)@),
            old(self)@.file_size + w.size <= u64::MAX,
        ensures
            final(self)@ == old(self)@.committed(w@),
            final(self)@.wf(),
    {
        extend_index(&mut self.index, &w.marks);
        self.next_offset = self.next_offset + w.count;
        self.file_size = self.file_size + w.size;
    }

    /// The segment without its index, to plan writes with.
    pub(crate) fn cursor(&self) -> (r: Self)
        requires
            self@.wf(),
        ensures
            r@ == self@.cursor(),
            r@.wf(),
    {
        Segment {
            base_offset: self.base_offset,
            next_offset: self.next_offset,
            file_size: self.file_size,
            index: SparseIndex::create(self.index.interval()),
        }
    }

    /// The byte of the log file from which to read for the entry at
    /// `start_offset`.
    pub fn read_position(&self, start_offset: u64) -> (p: u64)
        requires
            self@.wf(),
        ensures
            p == self@.read_position(start_offset),
    {
        match self.index.lookup(start_offset) {
            Some(p) => p,
            None => 0,
        }
    }

    /// Reads the entries from `start_offset` to `end_offset`, where `tail` is
    /// the log file from the read position on. A damaged batch that has to be
    /// read is an error; one behind the last wanted entry is not looked at.
    pub fn read(&self, tail: &[u8], start_offset: u64, end_offset: u64) -> (r: Result<
        Vec<LogEntry>,
        IoFault,
    >)
        requires
            self@.wf(),
            self@.read_position(start_offset) + tail@.len() <= u64::MAX,
        ensures
            reads_as(r, self@.read_tail(tail@, start_offset, end_offset)),
    {
        let mut result: Vec<LogEntry> = Vec::new();
        assert(entry_views(result@) =~= seq![]);
        if start_offset >= end_offset || start_offset >= self.next_offset {
            return Ok(result);
        }
        let end: u64 = if end_offset < self.next_offset {
            end_offset
        } else {
            self.next_offset
        };
        let origin: u64 = self.read_position(start_offset);
        let len: usize = tail.len();
        let mut pos: usize = 0;
        let mut more = true;
        let ghost b0 = tail@;
        let ghost size = self.file_size as nat;
        let mut next: u64 = self.base_offset;
        let ghost whole = read_outcome(
            b0,
            origin as nat,
            size,
            next as nat,
            start_offset,
            end,
            seq![],
        );
        assert(b0.skip(0) =~= b0);
        while more
            invariant
                b0 == tail@,
                len == b0.len(),
                size == self.file_size,
                pos <= len,
                origin + len <= u64::MAX,
                whole == self@.read_tail(tail@, start_offset, end_offset),
                more ==> whole == read_outcome(
                    b0.skip(pos as int),
                    (origin + pos) as nat,
                    size,
                    next as nat,
                    start_offset,
                    end,
                    entry_views(result@),
                ),
                !more ==> whole == ReadOutcome::Entries(entry_views(result@)),
            decreases len - pos, if more { 1int } else { 0int },
        {
            let ghost b = b0.skip(pos as int);
            let at: u64 = origin + pos as u64;
            if next >= end || at >= self.file_size || len - pos < 4 {
                more = false;
                continue ;
            }
            let batch_len: u32 = read_u32(tail, pos);
            assert(b.take(4) =~= b0.subrange(pos as int, pos + 4));
            if batch_len < 8 || batch_len > MAX_BATCH_DATA {
                return Err(invalid_length(at, batch_len));
            }
            if batch_len as usize > len - pos - 4 {
                return Err(
                    IoFault::new(
                        IoFaultKind::UnexpectedEof,
                        String::from_str("failed to fill whole buffer"),
                    ),
                );
            }
            let batch_end: usize = pos + 4 + batch_len as usize;
            let stored: u32 = read_u32(tail, pos + 4);
            assert(b.subrange(4, 8) =~= b0.subrange(pos + 4, pos + 8));
            let payload = slice_subrange(tail, pos + 8, batch_end);
            assert(payload@ =~= front_payload(b));
            let computed: u32 = checksum(payload);
            if stored != computed {
                return Err(checksum_mismatch(at, stored, computed));
            }
            let count: u32 = read_u32(tail, pos + 8);
            assert(b.subrange(8, 12) =~= b0.subrange(pos + 8, pos + 12));
            assert(front_frames(b) =~= b0.subrange(pos + 12, batch_end as int));
            match collect_frames(
                tail,
                pos + 12,
                batch_end,
                count,
                at,
                next,
                start_offset,
                end,
                &mut result,
            ) {
                Err(e) => {
                    return Err(e);
                },
                Ok(None) => {
                    more = false;
                },
                Ok(Some(after)) => {
                    assert(b.skip(front_size(b)) =~= b0.skip(batch_end as int));
                    pos = batch_end;
                    next = after;
                },
            }
        }
        Ok(result)
    }

    /// The offset of the first entry.
    pub fn base_offset(&self) -> (n: u64)
        ensures
            n == self@.base_offset,
    {
        self.base_offset
    }

    /// The offset that the next entry gets.
    pub fn next_offset(&self) -> (n: u64)
        ensures
            n == self@.next_offset,
    {
        self.next_offset
    }

    /// How many bytes of the log file are in use.
    pub fn file_size(&self) -> (n: u64)
        ensures
            n == self@.file_size,
    {
        self.file_size
    }

    /// The bytes of the index file.
    pub fn index_bytes(&self) -> (b: Vec<u8>)
        ensures
            b@ == crate::segment_index::index_encoding(self@.index.entries),
    {
        self.index.encode()
    }
}

/// Encodes entries.
pub fn serialize_all(entries: &[LogEntry]) -> (r: Vec<SerializedEntry>)
    ensures
        data_views(r@) == encodings(entry_views(entries@)),
        r@.len() == entries@.len(),
{
    let mut r: Vec<SerializedEntry> = Vec::new();
    let mut i: usize = 0;
    while i < entries.len()
        invariant
            i == r@.len(),
            i <= entries@.len(),
            forall|k: int| 0 <= k < i ==> (#[trigger] r@[k]).data@ == entries@[k]@.encoding(),
        decreases entries@.len() - i,
    {
        r.push(SerializedEntry { data: entries[i].encode() });
        i = i + 1;
    }
    assert(data_views(r@) =~= encodings(entry_views(entries@)));
    r
}

/// Adds entries to an index.
fn extend_index(index: &mut SparseIndex, marks: &Vec<(u64, u64)>)
    ensures
        final(index)@ == (SparseIndexView {
            entries: old(index)@.entries + marks@,
            ..old(index)@
        }),
{
    let ghost before = index@;
    let mut i: usize = 0;
    while i < marks.len()
        invariant
            i <= marks@.len(),
            index@ == (SparseIndexView {
                entries: before.entries + marks@.take(i as int),
                ..before
            }),
        decreases marks@.len() - i,
    {
        index.append(marks[i].0, marks[i].1);
        i = i + 1;
        assert(before.entries + marks@.take(i as int) =~= (before.entries + marks@.take(
            i - 1,
        )).push(marks@[i - 1]));
    }
    assert(marks@.take(i as int) =~= marks@);
}

} // verus!
