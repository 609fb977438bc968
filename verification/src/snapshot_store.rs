//! Snapshots on disk: where their files are, and how they are cut into chunks.
use vstd::prelude::*;
use vstd::slice::slice_subrange;

use crate::text::{append_decimal, decimal};

verus! {

/// How large a chunk is unless said otherwise (64 KiB).
pub const DEFAULT_CHUNK_SIZE: usize = 64 * 1024;

/// Identifies a snapshot by the term and index of its last entry.
#[derive(Debug, Clone, Copy, PartialEq, Eq, Structural)]
pub struct SnapshotMetadata {
    pub term: u64,
    pub index: u64,
}

impl SnapshotMetadata {
    /// Ordered by term, then by index.
    pub open spec fn older(self, other: SnapshotMetadata) -> bool {
        self.term < other.term || (self.term == other.term && self.index < other.index)
    }

    /// True if this snapshot is older than the other.
    pub fn is_older(&self, other: &SnapshotMetadata) -> (b: bool)
        ensures
            b == self.older(*other),
    {
        self.term < other.term || (self.term == other.term && self.index < other.index)
    }
}

/// A piece of a snapshot.
#[derive(Debug)]
pub struct SnapshotChunk {
    pub data: Vec<u8>,
    /// Where in the snapshot the piece starts.
    pub position: u64,
    /// The snapshot ends with this piece.
    pub done: bool,
}

#[verifier::ext_equal]
pub struct SnapshotChunkView {
    pub data: Seq<u8>,
    pub position: u64,
    pub done: bool,
}

impl View for SnapshotChunk {
    type V = SnapshotChunkView;

    open spec fn view(&self) -> SnapshotChunkView {
        SnapshotChunkView { data: self.data@, position: self.position, done: self.done }
    }
}

/// What to do with a chunk that was received.
#[derive(Debug, Clone, Copy, PartialEq, Eq, Structural)]
pub struct ChunkWrite {
    /// Create the file, or empty it.
    pub create: bool,
    /// Where in the file the data goes.
    pub position: u64,
    /// The snapshot is complete: write its metadata.
    pub write_meta: bool,
}

/// The store: a directory with a `.snap` file for each snapshot, and its
/// metadata beside it.
#[derive(Debug)]
pub struct SnapshotStore {
    base_dir: String,
    chunk_size: usize,
}

#[verifier::ext_equal]
pub struct SnapshotStoreView {
    pub base_dir: Seq<char>,
    pub chunk_size: usize,
}

impl View for SnapshotStore {
    type V = SnapshotStoreView;

    closed spec fn view(&self) -> SnapshotStoreView {
        SnapshotStoreView { base_dir: self.base_dir@, chunk_size: self.chunk_size }
    }
}

/// How many bytes of a file of `len` bytes a chunk at `position` holds.
pub open spec fn chunk_length(chunk_size: usize, len: nat, position: nat) -> nat {
    if position >= len {
        0
    } else if len - position < chunk_size {
        (len - position) as nat
    } else {
        chunk_size as nat
    }
}

/// The chunk of a snapshot at `position`.
pub open spec fn chunk_of(chunk_size: usize, content: Seq<u8>, position: u64) -> SnapshotChunkView {
    let n = chunk_length(chunk_size, content.len(), position as nat);
    SnapshotChunkView {
        data: if position >= content.len() {
            seq![]
        } else {
            content.subrange(position as int, position + n)
        },
        position,
        done: position + n >= content.len(),
    }
}

/// The file once a chunk was written to it: from the start the file is empty
/// before, and a gap before the chunk is filled with zeros.
pub open spec fn chunk_written(content: Seq<u8>, chunk: SnapshotChunkView) -> Seq<u8> {
    if chunk.position == 0 {
        chunk.data
    } else {
        let at = chunk.position as int;
        let end = at + chunk.data.len();
        let before = if at <= content.len() {
            content.take(at)
        } else {
            content + Seq::new((at - content.len()) as nat, |i: int| 0u8)
        };
        before + chunk.data + (if end <= content.len() {
            content.skip(end)
        } else {
            seq![]
        })
    }
}

/// The name of a snapshot's files without extension.
pub open spec fn snapshot_name(meta: SnapshotMetadata) -> Seq<char> {
    decimal(meta.term as nat) + "-"@ + decimal(meta.index as nat)
}

fn file_name(meta: &SnapshotMetadata, extension: &str) -> (s: String)
    ensures
        s@ == snapshot_name(*meta) + extension@,
{
    let mut s = String::new();
    append_decimal(&mut s, meta.term);
    s.append("-");
    append_decimal(&mut s, meta.index);
    s.append(extension);
    assert(s@ =~= snapshot_name(*meta) + extension@);
    s
}

/// From the latest to the oldest.
pub open spec fn latest_first(s: Seq<SnapshotMetadata>) -> bool {
    forall|i: int, j: int| 0 <= i < j < s.len() ==> !(#[trigger] s[i]).older(#[trigger] s[j])
}

/// The snapshots of the list that are older than `keep`.
pub open spec fn expendable(
    all: Seq<SnapshotMetadata>,
    keep: SnapshotMetadata,
) -> Seq<SnapshotMetadata> {
    all.filter(|m: SnapshotMetadata| m.older(keep))
}

/// What to do with a chunk: the first one starts the file anew, the last one
/// completes it.
pub open spec fn write_plan(chunk: SnapshotChunkView) -> ChunkWrite {
    ChunkWrite { create: chunk.position == 0, position: chunk.position, write_meta: chunk.done }
}

impl SnapshotStore {
    /// A store in the given directory.
    pub fn new(base_dir: String) -> (r: Self)
        ensures
            r@ == (SnapshotStoreView { base_dir: base_dir@, chunk_size: 65536 }),
    {
        SnapshotStore { base_dir, chunk_size: DEFAULT_CHUNK_SIZE }
    }

    /// The store with another chunk size.
    pub fn with_chunk_size(self, chunk_size: usize) -> (r: Self)
        requires
            chunk_size > 0,
        ensures
            r@ == (SnapshotStoreView { chunk_size, ..self@ }),
    {
        SnapshotStore { base_dir: self.base_dir, chunk_size }
    }

    /// The directory of the store.
    pub fn base_dir(&self) -> (s: &str)
        ensures
            s@ == self@.base_dir,
    {
        self.base_dir.as_str()
    }

    /// The name, within the directory, of the file with the bytes of a
    /// snapshot.
    pub fn snapshot_path(&self, meta: &SnapshotMetadata) -> (s: String)
        ensures
            s@ == snapshot_name(*meta) + ".snap"@,
    {
        file_name(meta, ".snap")
    }

    /// The name, within the directory, of the file with the metadata of a
    /// snapshot.
    pub fn meta_path(&self, meta: &SnapshotMetadata) -> (s: String)
        ensures
            s@ == snapshot_name(*meta) + ".meta"@,
    {
        file_name(meta, ".meta")
    }

    /// How many bytes to read at `position` of a file of `file_len` bytes.
    pub fn chunk_len(&self, file_len: u64, position: u64) -> (n: usize)
        ensures
            n == chunk_length(self@.chunk_size, file_len as nat, position as nat),
    {
        if position >= file_len {
            return 0;
        }
        let remaining: u64 = file_len - position;
        if remaining < self.chunk_size as u64 {
            remaining as usize
        } else {
            self.chunk_size
        }
    }

    /// The chunk with the bytes that were read at `position` of a file of
    /// `file_len` bytes.
    pub fn chunk(&self, file_len: u64, position: u64, data: Vec<u8>) -> (c: SnapshotChunk)
        requires
            data@.len() == chunk_length(self@.chunk_size, file_len as nat, position as nat),
        ensures
            c@ == (SnapshotChunkView {
                data: data@,
                position,
                done: position + data@.len() >= file_len,
            }),
    {
        let done = position >= file_len || data.len() as u64 >= file_len - position;
        SnapshotChunk { data, position, done }
    }

    /// The chunk at `position` of a snapshot. Past its end the chunk is empty
    /// and the last.
    pub fn read_chunk(&self, content: &[u8], position: u64) -> (c: SnapshotChunk)
        ensures
            c@ == chunk_of(self@.chunk_size, content@, position),
    {
        let len: u64 = content.len() as u64;
        let n: usize = self.chunk_len(len, position);
        let mut data: Vec<u8> = Vec::new();
        if n > 0 {
            let at: usize = position as usize;
            let part = slice_subrange(content, at, at + n);
            let mut i: usize = 0;
            while i < part.len()
                invariant
                    i <= part@.len(),
                    data@ == part@.take(i as int),
                decreases part@.len() - i,
            {
                data.push(part[i]);
                i = i + 1;
                assert(data@ =~= part@.take(i as int));
            }
            assert(data@ =~= content@.subrange(at as int, at + n));
        } else {
            assert(position < len ==> content@.subrange(position as int, position as int)
                =~= data@);
        }
        self.chunk(len, position, data)
    }

    /// What to do with a chunk that was received.
    pub fn plan_write(&self, chunk: &SnapshotChunk) -> (w: ChunkWrite)
        ensures
            w == write_plan(chunk@),
    {
        ChunkWrite {
            create: chunk.position == 0,
            position: chunk.position,
            write_meta: chunk.done,
        }
    }

    /// The snapshots from the latest to the oldest.
    pub fn list_snapshots(&self, found: Vec<SnapshotMetadata>) -> (r: Vec<SnapshotMetadata>)
        ensures
            latest_first(r@),
            r@.to_multiset() == found@.to_multiset(),
    {
        broadcast use vstd::seq_lib::group_to_multiset_ensures;

        let mut r: Vec<SnapshotMetadata> = Vec::new();
        let mut i: usize = 0;
        while i < found.len()
            invariant
                i <= found@.len(),
                latest_first(r@),
                r@.to_multiset() == found@.take(i as int).to_multiset(),
            decreases found@.len() - i,
        {
            let m = found[i];
            let mut at: usize = r.len();
            while at > 0 && r[at - 1].is_older(&m)
                invariant
                    at <= r@.len(),
                    latest_first(r@),
                    forall|k: int| at <= k < r@.len() ==> (#[trigger] r@[k]).older(m),
                decreases at,
            {
                at = at - 1;
            }
            let ghost before = r@;
            r.insert(at, m);
            proof {
                assert forall|a: int, b: int| 0 <= a < b < r@.len() implies !(
                #[trigger] r@[a]).older(#[trigger] r@[b]) by {
                    if a < at {
                        assert(r@[a] == before[a]);
                        if at > 0 {
                            assert(!before[at - 1].older(m));
                            assert(a < at - 1 ==> !before[a].older(before[at - 1]));
                        }
                    } else if a > at {
                        assert(r@[a] == before[a - 1]);
                    }
                    if b < at {
                        assert(r@[b] == before[b]);
                    } else if b > at {
                        assert(r@[b] == before[b - 1]);
                    }
                }
                vstd::seq_lib::to_multiset_insert(before, at as int, m);
                vstd::seq_lib::to_multiset_build(found@.take(i as int), m);
                assert(found@.take(i + 1) =~= found@.take(i as int).push(m));
            }
            i = i + 1;
        }
        assert(found@.take(i as int) =~= found@);
        r
    }

    /// The snapshots that are older than `keep`, which can be removed.
    pub fn older_than(&self, all: &Vec<SnapshotMetadata>, keep: &SnapshotMetadata) -> (r: Vec<
        SnapshotMetadata,
    >)
        ensures
            r@ == expendable(all@, *keep),
    {
        let mut r: Vec<SnapshotMetadata> = Vec::new();
        let ghost p = |m: SnapshotMetadata| m.older(*keep);
        let mut i: usize = 0;
        proof {
            reveal(Seq::filter);
            assert(all@.take(0).filter(p) =~= seq![]);
        }
        while i < all.len()
            invariant
                i <= all@.len(),
                p == (|m: SnapshotMetadata| m.older(*keep)),
                r@ == all@.take(i as int).filter(p),
            decreases all@.len() - i,
        {
            proof {
                reveal(Seq::filter);
                assert(all@.take(i + 1).drop_last() =~= all@.take(i as int));
                assert(all@.take(i + 1).last() == all@[i as int]);
            }
            if all[i].is_older(keep) {
                r.push(all[i]);
            }
            i = i + 1;
        }
        assert(all@.take(i as int) =~= all@);
        r
    }
}

/// A snapshot that was received up to `position`, and then gets the chunk at
/// that position, is received up to the end of the chunk. The chunk that says
/// it is the last completes it.
pub proof fn law_chunks_restore_snapshot(
    chunk_size: usize,
    content: Seq<u8>,
    received: Seq<u8>,
    position: u64,
)
    requires
        chunk_size > 0,
        content.len() <= u64::MAX,
        position <= content.len(),
        received == content.take(position as int),
    ensures
        ({
            let c = chunk_of(chunk_size, content, position);
            let after = chunk_written(received, c);
            &&& after == content.take(position + c.data.len())
            &&& c.done <==> after == content
            &&& !c.done ==> c.data.len() > 0
        }),
{
    let c = chunk_of(chunk_size, content, position);
    let after = chunk_written(received, c);
    assert(after =~= content.take(position + c.data.len()));
    if c.done {
        assert(after =~= content);
    }
}

/// Snapshots are ordered by term, and within a term by index: of two different
/// ones exactly one is older, and none is older than itself.
pub proof fn law_snapshots_are_ordered(
    a: SnapshotMetadata,
    b: SnapshotMetadata,
    c: SnapshotMetadata,
)
    ensures
        !a.older(a),
        a != b ==> (a.older(b) <==> !b.older(a)),
        a.older(b) && b.older(c) ==> a.older(c),
        a.term < b.term ==> a.older(b),
        a.term == b.term ==> (a.older(b) <==> a.index < b.index),
{
}

/// Only snapshots older than the one to keep are removed, and all of them.
pub proof fn law_cleanup_keeps_newer(
    all: Seq<SnapshotMetadata>,
    keep: SnapshotMetadata,
    m: SnapshotMetadata,
)
    ensures
        expendable(all, keep).contains(m) <==> all.contains(m) && (m.term < keep.term || (m.term
            == keep.term && m.index < keep.index)),
        !expendable(all, keep).contains(keep),
    decreases all.len(),
{
    reveal(Seq::filter);
    if all.len() > 0 {
        let rest = all.drop_last();
        let last = all.last();
        law_cleanup_keeps_newer(rest, keep, m);
        let sub = expendable(rest, keep);
        let found = expendable(all, keep);
        if rest.contains(m) {
            let k = choose|k: int| 0 <= k < rest.len() && rest[k] == m;
            assert(all[k] == m);
        }
        if all.contains(m) {
            let k = choose|k: int| 0 <= k < all.len() && all[k] == m;
            if k < rest.len() {
                assert(rest[k] == m);
                assert(rest.contains(m));
            }
        }
        if sub.contains(m) {
            let k = choose|k: int| 0 <= k < sub.len() && sub[k] == m;
            assert(found[k] == m);
        }
        if m == last {
            assert(all[all.len() - 1] == m);
            if m.older(keep) {
                assert(found[sub.len() as int] == m);
            }
        }
        if found.contains(m) {
            let k = choose|k: int| 0 <= k < found.len() && found[k] == m;
            if k < sub.len() {
                assert(sub[k] == m);
                assert(sub.contains(m));
            }
        }
        if found.contains(keep) {
            let k = choose|k: int| 0 <= k < found.len() && found[k] == keep;
            if k < sub.len() {
                assert(sub[k] == keep);
                assert(sub.contains(keep));
            }
        }
    }
}

/// A chunk holds as many bytes as fit, of what is left from its position on; the
/// last one is the one that reaches the end of the snapshot.
pub proof fn law_chunk_is_as_large_as_fits(chunk_size: usize, content: Seq<u8>, position: u64)
    ensures
        ({
            let c = chunk_of(chunk_size, content, position);
            let left = content.len() - position;
            &&& c.position == position
            &&& left <= 0 ==> c.data.len() == 0 && c.done
            &&& 0 < left && left < chunk_size ==> c.data.len() == left && c.done
            &&& left >= chunk_size && left > 0 ==> c.data.len() == chunk_size && (c.done <==> left
                == chunk_size)
            &&& forall|i: int|
                0 <= i < c.data.len() ==> #[trigger] c.data[i] == content[position + i]
            &&& write_plan(c).create <==> position == 0
            &&& write_plan(c).position == position
            &&& write_plan(c).write_meta <==> c.done
        }),
{
}

/// The first of a list from the latest to the oldest is older than none of it,
/// and the last is the oldest.
pub proof fn law_latest_comes_first(s: Seq<SnapshotMetadata>, i: int)
    requires
        latest_first(s),
        0 <= i < s.len(),
    ensures
        s[0].term > s[i].term || (s[0].term == s[i].term && s[0].index >= s[i].index),
        s.last().term < s[i].term || (s.last().term == s[i].term && s.last().index <= s[i].index),
{
    if i > 0 {
        assert(!s[0].older(s[i]));
    }
    if i < s.len() - 1 {
        assert(!s[i].older(s[s.len() - 1]));
    }
}

} // verus!
