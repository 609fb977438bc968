//! Listener callbacks as values.
use vstd::prelude::*;

use crate::app_record::AppRecord;
use crate::listener::{commit_views, Listener};
use crate::snapshot::SnapshotReader;
use crate::types::{NodeId, Term};

verus! {

/// Internal event enum for dispatching Listener callbacks.
/// These are synchronous in-process calls, not I/O actions.
pub enum ListenerEvent {
    Commit { batch: Vec<(u64, AppRecord)> },
    LoadSnapshot { reader: SnapshotReader },
    LeaderChange { leader_id: NodeId, term: Term },
    Shutdown,
}

impl ListenerEvent {
    /// The step that the listener takes on the event.
    pub open spec fn step<L: Listener>(self, before: L, after: L) -> bool {
        match self {
            ListenerEvent::Commit { batch } => before.commit_step(commit_views(batch@), &after),
            ListenerEvent::LoadSnapshot { reader } => before.load_snapshot_step(reader, &after),
            ListenerEvent::LeaderChange { leader_id, term } => before.leader_change_step(
                leader_id,
                term,
                &after,
            ),
            ListenerEvent::Shutdown => before.shutdown_step(&after),
        }
    }

    /// Invoke the callback that the event stands for, once.
    pub fn dispatch<L: Listener>(self, listener: &mut L)
        ensures
            self.step(*old(listener), *final(listener)),
    {
        match self {
            ListenerEvent::Commit { batch } => listener.handle_commit(batch.as_slice()),
            ListenerEvent::LoadSnapshot { reader } => listener.handle_load_snapshot(reader),
            ListenerEvent::LeaderChange { leader_id, term } => listener.handle_leader_change(
                leader_id,
                term,
            ),
            ListenerEvent::Shutdown => listener.begin_shutdown(),
        }
    }
}

/// An event reaches the callback it stands for, with what it carries, and no
/// other.
pub proof fn law_event_reaches_callback<L: Listener>(event: ListenerEvent, before: L, after: L)
    requires
        event.step(before, after),
    ensures
        event matches ListenerEvent::Commit { batch } ==> before.commit_step(
            commit_views(batch@),
            &after,
        ),
        event matches ListenerEvent::LoadSnapshot { reader } ==> before.load_snapshot_step(
            reader,
            &after,
        ),
        event matches ListenerEvent::LeaderChange { leader_id, term }
            ==> before.leader_change_step(leader_id, term, &after),
        event is Shutdown ==> before.shutdown_step(&after),
{
}

} // verus!
