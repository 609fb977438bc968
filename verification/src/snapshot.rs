//! Snapshots: their metadata, and reading and writing their payload in chunks.
use bytes::Bytes;
use vstd::prelude::*;

use crate::app_record::AppSnapshot;
use crate::codec::{bytes_content, bytes_from_vec, bytes_len, bytes_slice, bytes_to_vec};
use crate::voter::{clone_voters, voter_views, VoterInfo, VoterView};

verus! {

/// Identifies a specific snapshot by its last included offset and epoch.
#[derive(Debug, Clone, Copy, PartialEq, Eq, Hash, Structural)]
pub struct SnapshotId {
    pub end_offset: u64,
    pub epoch: u64,
}

/// Metadata for a snapshot.
#[derive(Debug, PartialEq, Eq)]
pub struct SnapshotMetadata {
    pub last_included_offset: u64,
    pub last_included_term: u64,
    pub voters: Vec<VoterInfo>,
    pub leader_epoch: u64,
}

#[verifier::ext_equal]
pub struct SnapshotMetadataView {
    pub last_included_offset: u64,
    pub last_included_term: u64,
    pub voters: Seq<VoterView>,
    pub leader_epoch: u64,
}

impl View for SnapshotMetadata {
    type V = SnapshotMetadataView;

    open spec fn view(&self) -> SnapshotMetadataView {
        SnapshotMetadataView {
            last_included_offset: self.last_included_offset,
            last_included_term: self.last_included_term,
            voters: voter_views(self.voters@),
            leader_epoch: self.leader_epoch,
        }
    }
}

impl Clone for SnapshotMetadata {
    fn clone(&self) -> (r: Self)
        ensures
            r@ == self@,
    {
        SnapshotMetadata {
            last_included_offset: self.last_included_offset,
            last_included_term: self.last_included_term,
            voters: clone_voters(&self.voters),
            leader_epoch: self.leader_epoch,
        }
    }
}

/// A complete snapshot: consensus metadata and application payload.
#[derive(Debug, PartialEq, Eq)]
pub struct Snapshot {
    pub metadata: SnapshotMetadata,
    pub app_snapshot: AppSnapshot,
}

#[verifier::ext_equal]
pub struct SnapshotView {
    pub metadata: SnapshotMetadataView,
    pub app_snapshot: Seq<u8>,
}

impl View for Snapshot {
    type V = SnapshotView;

    open spec fn view(&self) -> SnapshotView {
        SnapshotView { metadata: self.metadata@, app_snapshot: self.app_snapshot@ }
    }
}

impl Clone for Snapshot {
    fn clone(&self) -> (r: Self)
        ensures
            r@ == self@,
    {
        Snapshot { metadata: self.metadata.clone(), app_snapshot: self.app_snapshot.clone() }
    }
}

/// Collects the chunks of a snapshot that is being received.
#[derive(Debug)]
pub struct SnapshotWriter {
    data: Vec<u8>,
}

impl View for SnapshotWriter {
    type V = Seq<u8>;

    closed spec fn view(&self) -> Seq<u8> {
        self.data@
    }
}

impl SnapshotWriter {
    /// A writer that has received nothing.
    pub fn new() -> (r: Self)
        ensures
            r@ == Seq::<u8>::empty(),
    {
        SnapshotWriter { data: Vec::new() }
    }

    /// Appends a chunk.
    pub fn write_chunk(&mut self, chunk: &[u8])
        ensures
            final(self)@ == old(self)@ + chunk@,
    {
        self.data.extend_from_slice(chunk);
        assert(self.data@ =~= old(self).data@ + chunk@);
    }

    /// How many bytes have been received.
    pub fn bytes_written(&self) -> (n: usize)
        ensures
            n == self@.len(),
    {
        self.data.len()
    }

    /// The payload that the chunks make up.
    pub fn finalize(self) -> (r: Vec<u8>)
        ensures
            r@ == self@,
    {
        self.data
    }
}

/// A reader for snapshot chunks (used during follower restore).
#[derive(Debug)]
pub struct SnapshotReader {
    pub data: Bytes,
    pub metadata: SnapshotMetadata,
    /// How many bytes have been handed out.
    pub position: usize,
}

impl SnapshotReader {
    /// The payload of the snapshot.
    pub open spec fn content(self) -> Seq<u8> {
        bytes_content(self.data)
    }

    /// What has not been handed out yet.
    pub open spec fn rest(self) -> Seq<u8> {
        if self.position <= self.content().len() {
            self.content().skip(self.position as int)
        } else {
            Seq::empty()
        }
    }

    /// A reader at the start of the snapshot's payload.
    pub fn new(snapshot: Snapshot) -> (r: Self)
        ensures
            r.content() == snapshot@.app_snapshot,
            r.metadata@ == snapshot@.metadata,
            r.rest() == snapshot@.app_snapshot,
    {
        let r = SnapshotReader {
            data: bytes_from_vec(snapshot.app_snapshot.data),
            metadata: snapshot.metadata,
            position: 0,
        };
        assert(r.rest() =~= snapshot@.app_snapshot);
        r
    }

    /// A copy of the payload.
    pub fn app_data(&self) -> (v: Vec<u8>)
        ensures
            v@ == self.content(),
    {
        bytes_to_vec(&self.data)
    }

    /// The length of the payload.
    pub fn len(&self) -> (n: usize)
        ensures
            n == self.content().len(),
    {
        bytes_len(&self.data)
    }

    pub fn is_empty(&self) -> (b: bool)
        ensures
            b == (self.content().len() == 0),
    {
        bytes_len(&self.data) == 0
    }

    /// The next chunk, of `max` bytes or of what is left, and whether the
    /// payload ends with it.
    pub fn read_chunk(&mut self, max: usize) -> (r: (Bytes, bool))
        ensures
            final(self).content() == old(self).content(),
            final(self).metadata == old(self).metadata,
            bytes_content(r.0) == (if old(self).rest().len() <= max {
                old(self).rest()
            } else {
                old(self).rest().take(max as int)
            }),
            old(self).rest() == bytes_content(r.0) + final(self).rest(),
            r.1 == (final(self).rest().len() == 0),
    {
        let len: usize = bytes_len(&self.data);
        let from: usize = if self.position <= len { self.position } else { len };
        let to: usize = if max < len - from { from + max } else { len };
        let chunk = bytes_slice(&self.data, from, to);
        let ghost before = self.rest();
        self.position = to;
        proof {
            assert(before =~= self.content().skip(from as int));
            assert(before =~= bytes_content(chunk) + self.rest());
            assert(bytes_content(chunk) =~= (if before.len() <= max {
                before
            } else {
                before.take(max as int)
            }));
        }
        (chunk, to == len)
    }
}

/// What is handed out by reading chunks of `sizes` from `rest`, one after the
/// other.
pub open spec fn chunked(rest: Seq<u8>, sizes: Seq<nat>) -> Seq<Seq<u8>>
    decreases sizes.len(),
{
    if sizes.len() == 0 {
        seq![]
    } else {
        let n = if rest.len() <= sizes[0] { rest.len() as int } else { sizes[0] as int };
        seq![rest.take(n)] + chunked(rest.skip(n), sizes.skip(1))
    }
}

/// Reading a payload in chunks of any sizes and writing the chunks one after
/// the other gives the payload back, as soon as the sizes add up to it.
pub proof fn law_chunks_restore_payload(payload: Seq<u8>, sizes: Seq<nat>)
    requires
        payload.len() <= sizes.fold_left(0nat, |a: nat, b: nat| a + b),
    ensures
        chunked(payload, sizes).flatten() == payload,
    decreases sizes.len(),
{
    let total = |a: nat, b: nat| a + b;
    if sizes.len() == 0 {
        assert(sizes.fold_left(0nat, total) == 0);
        assert(chunked(payload, sizes).flatten() =~= payload);
    } else {
        let n = if payload.len() <= sizes[0] { payload.len() as int } else { sizes[0] as int };
        let rest = payload.skip(n);
        lemma_sum_skip(sizes);
        law_chunks_restore_payload(rest, sizes.skip(1));
        let chunks = chunked(payload, sizes);
        assert(chunks.first() == payload.take(n));
        assert(chunks.drop_first() =~= chunked(rest, sizes.skip(1)));
        assert(chunks.flatten() == chunks.first() + chunks.drop_first().flatten());
        assert(payload.take(n) + rest =~= payload);
    }
}

proof fn lemma_sum_skip(sizes: Seq<nat>)
    requires
        sizes.len() > 0,
    ensures
        sizes.fold_left(0nat, |a: nat, b: nat| a + b) == sizes[0] + sizes.skip(1).fold_left(
            0nat,
            |a: nat, b: nat| a + b,
        ),
    decreases sizes.len(),
{
    let total = |a: nat, b: nat| a + b;
    if sizes.len() == 1 {
        reveal_with_fuel(Seq::fold_left, 3);
    } else {
        lemma_sum_skip(sizes.drop_last());
        assert(sizes.drop_last().skip(1) =~= sizes.skip(1).drop_last());
        assert(sizes.fold_left(0nat, total) == total(
            sizes.drop_last().fold_left(0nat, total),
            sizes.last(),
        ));
        assert(sizes.skip(1).fold_left(0nat, total) == total(
            sizes.skip(1).drop_last().fold_left(0nat, total),
            sizes.skip(1).last(),
        ));
    }
}

} // verus!
