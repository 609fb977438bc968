//! Actions that the protocol asks the I/O layer to perform.
use vstd::prelude::*;

use crate::log_entry::{entry_views, LogEntry, LogEntryView};
use crate::quorum_state::QuorumState;
use crate::rpc::{RpcEnvelope, RpcEnvelopeView};
use crate::snapshot::{Snapshot, SnapshotView};
use crate::types::NodeId;

verus! {

/// Actions produced by the event loop for the I/O stage to execute.
#[derive(Debug, PartialEq, Eq)]
pub enum IoAction {
    PersistQuorumState(QuorumState),
    AppendLog(Vec<LogEntry>),
    TruncateSuffix(u64),
    TruncatePrefix(u64),
    SendRpc(NodeId, RpcEnvelope),
    SaveSnapshot(Snapshot),
}

#[verifier::ext_equal]
pub enum IoActionView {
    PersistQuorumState(QuorumState),
    AppendLog(Seq<LogEntryView>),
    TruncateSuffix(u64),
    TruncatePrefix(u64),
    SendRpc(NodeId, RpcEnvelopeView),
    SaveSnapshot(SnapshotView),
}

impl View for IoAction {
    type V = IoActionView;

    open spec fn view(&self) -> IoActionView {
        match self {
            IoAction::PersistQuorumState(q) => IoActionView::PersistQuorumState(*q),
            IoAction::AppendLog(e) => IoActionView::AppendLog(entry_views(e@)),
            IoAction::TruncateSuffix(o) => IoActionView::TruncateSuffix(*o),
            IoAction::TruncatePrefix(o) => IoActionView::TruncatePrefix(*o),
            IoAction::SendRpc(n, m) => IoActionView::SendRpc(*n, m@),
            IoAction::SaveSnapshot(s) => IoActionView::SaveSnapshot(s@),
        }
    }
}

/// The views of a list of actions.
pub open spec fn action_views(actions: Seq<IoAction>) -> Seq<IoActionView> {
    actions.map_values(|a: IoAction| a@)
}

/// Batch of actions collected during a single event loop iteration.
#[derive(Debug, PartialEq, Eq)]
pub struct IoActionBatch {
    pub actions: Vec<IoAction>,
}

impl View for IoActionBatch {
    type V = Seq<IoActionView>;

    open spec fn view(&self) -> Seq<IoActionView> {
        action_views(self.actions@)
    }
}

impl Default for IoActionBatch {
    fn default() -> (r: Self)
        ensures
            r@ == Seq::<IoActionView>::empty(),
    {
        IoActionBatch::new()
    }
}

impl IoActionBatch {
    pub fn new() -> (r: Self)
        ensures
            r@ == Seq::<IoActionView>::empty(),
    {
        let r = IoActionBatch { actions: Vec::new() };
        assert(r@ =~= Seq::<IoActionView>::empty());
        r
    }

    pub fn push(&mut self, action: IoAction)
        ensures
            final(self)@ == old(self)@.push(action@),
    {
        self.actions.push(action);
        assert(self@ =~= old(self)@.push(action@));
    }

    /// Moves the actions of `other` behind those of this batch.
    pub fn extend(&mut self, other: IoActionBatch)
        ensures
            final(self)@ == old(self)@ + other@,
    {
        let mut rest = other.actions;
        self.actions.append(&mut rest);
        assert(self@ =~= old(self)@ + other@);
    }

    pub fn is_empty(&self) -> (b: bool)
        ensures
            b == (self@.len() == 0),
    {
        self.actions.is_empty()
    }

    /// Which action belongs to which group.
    pub open spec fn spec_is_network(action: IoActionView) -> bool {
        action is SendRpc
    }

    /// Splits the batch into storage actions and network actions, each in the
    /// order of the batch. Storage actions run one after the other, because
    /// the order of log appends matters; the two groups may run concurrently.
    pub fn partition(self) -> (r: (Vec<IoAction>, Vec<IoAction>))
        ensures
            action_views(r.0@) == self@.filter(|a: IoActionView| !Self::spec_is_network(a)),
            action_views(r.1@) == self@.filter(|a: IoActionView| Self::spec_is_network(a)),
    {
        let ghost storage_group = |a: IoActionView| !Self::spec_is_network(a);
        let ghost network_group = |a: IoActionView| Self::spec_is_network(a);
        let ghost all = self@;
        let mut rest = self.actions;
        let mut reversed: Vec<IoAction> = Vec::new();
        while rest.len() > 0
            invariant
                action_views(rest@) + action_views(reversed@).reverse() == all,
            decreases rest@.len(),
        {
            let ghost a = action_views(rest@);
            let ghost b = action_views(reversed@);
            match rest.pop() {
                Some(action) => {
                    reversed.push(action);
                    proof {
                        assert(action_views(rest@) =~= a.drop_last());
                        assert(action_views(reversed@) =~= b.push(a.last()));
                        assert(action_views(rest@) + action_views(reversed@).reverse() =~= a
                            + b.reverse());
                    }
                },
                None => {},
            }
        }
        let ghost todo = action_views(reversed@);
        assert(todo.reverse() =~= all);
        let mut storage: Vec<IoAction> = Vec::new();
        let mut network: Vec<IoAction> = Vec::new();
        proof {
            assert(action_views(storage@) =~= Seq::<IoActionView>::empty());
            assert(action_views(network@) =~= Seq::<IoActionView>::empty());
            assert(all.take(0) =~= Seq::<IoActionView>::empty());
            reveal(Seq::filter);
        }
        while reversed.len() > 0
            invariant
                reversed@.len() <= all.len(),
                action_views(reversed@).reverse() == all.skip(all.len() - reversed@.len()),
                action_views(storage@) == all.take(all.len() - reversed@.len()).filter(
                    storage_group,
                ),
                action_views(network@) == all.take(all.len() - reversed@.len()).filter(
                    network_group,
                ),
                storage_group == (|a: IoActionView| !Self::spec_is_network(a)),
                network_group == (|a: IoActionView| Self::spec_is_network(a)),
            decreases reversed@.len(),
        {
            let ghost done = all.len() - reversed@.len();
            let ghost before = action_views(reversed@);
            let ghost s0 = storage@;
            let ghost n0 = network@;
            match reversed.pop() {
                Some(action) => {
                    proof {
                        assert(before.reverse()[0] == action@);
                        assert(all[done] == action@);
                        assert(all.take(done + 1) =~= all.take(done).push(action@));
                        assert(all.take(done + 1).drop_last() =~= all.take(done));
                        assert(action_views(reversed@) =~= before.drop_last());
                        assert(before.drop_last().reverse() =~= before.reverse().skip(1));
                        assert(all.skip(done).skip(1) =~= all.skip(done + 1));
                        reveal(Seq::filter);
                    }
                    let is_network = match &action {
                        IoAction::SendRpc(_, _) => true,
                        _ => false,
                    };
                    if is_network {
                        network.push(action);
                    } else {
                        storage.push(action);
                    }
                    proof {
                        assert(action_views(s0.push(action)) =~= action_views(s0).push(action@));
                        assert(action_views(n0.push(action)) =~= action_views(n0).push(action@));
                    }
                },
                None => {},
            }
        }
        assert(all.take(all.len() as int) =~= all);
        (storage, network)
    }
}

/// `batch` followed by an action that saves `qs`, where there is one.
pub open spec fn with_persist(
    batch: Seq<IoActionView>,
    qs: Option<QuorumState>,
) -> Seq<IoActionView> {
    match qs {
        Some(q) => batch.push(IoActionView::PersistQuorumState(q)),
        None => batch,
    }
}

/// Appends an action that saves `qs`, where there is one.
pub fn push_persist(batch: &mut IoActionBatch, qs: Option<QuorumState>)
    ensures
        final(batch)@ == with_persist(old(batch)@, qs),
{
    if let Some(q) = qs {
        batch.push(IoAction::PersistQuorumState(q));
    }
}

/// Messages, and nothing else, go to the network group of a batch.
pub proof fn law_messages_are_network(action: IoActionView)
    ensures
        IoActionBatch::spec_is_network(action) <==> !(action is PersistQuorumState || action
            is AppendLog || action is TruncateSuffix || action is TruncatePrefix || action
            is SaveSnapshot),
{
}

} // verus!
