//! Callbacks into the application.
use vstd::prelude::*;

use crate::app_record::AppRecord;
use crate::snapshot::SnapshotReader;
use crate::types::{NodeId, Term};

verus! {

/// The offsets and payloads of a commit batch.
pub open spec fn commit_views(batch: Seq<(u64, AppRecord)>) -> Seq<(u64, Seq<u8>)> {
    batch.map_values(|e: (u64, AppRecord)| (e.0, e.1@))
}

/// Application callback interface invoked synchronously by the event loop.
///
/// The specification functions say which steps an implementation may take on
/// a call; each implementation chooses them, and one that does not may take
/// any.
pub trait Listener: Send + 'static {
    open spec fn commit_step(&self, batch: Seq<(u64, Seq<u8>)>, after: &Self) -> bool {
        true
    }

    /// Called when entries are committed. Each tuple is (offset, record).
    fn handle_commit(&mut self, batch: &[(u64, AppRecord)])
        ensures
            old(self).commit_step(commit_views(batch@), final(self)),
    ;

    open spec fn load_snapshot_step(&self, reader: SnapshotReader, after: &Self) -> bool {
        true
    }

    /// Called when a snapshot is loaded (during recovery or transfer).
    fn handle_load_snapshot(&mut self, reader: SnapshotReader)
        ensures
            old(self).load_snapshot_step(reader, final(self)),
    ;

    open spec fn leader_change_step(&self, leader_id: NodeId, term: Term, after: &Self) -> bool {
        true
    }

    /// Called when a new leader is elected.
    fn handle_leader_change(&mut self, leader_id: NodeId, term: Term)
        ensures
            old(self).leader_change_step(leader_id, term, final(self)),
    ;

    open spec fn shutdown_step(&self, after: &Self) -> bool {
        true
    }

    /// Called when shutdown begins.
    fn begin_shutdown(&mut self)
        ensures
            old(self).shutdown_step(final(self)),
    ;
}

} // verus!
