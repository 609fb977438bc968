//! Cluster membership, with at most one change in flight.
use std::collections::HashSet;

use vstd::prelude::*;

use crate::node_state::majority_of;
use crate::text::{append_decimal, decimal};

verus! {

broadcast use vstd::std_specs::hash::group_hash_axioms;

/// Unique identifier for a node in the Raft cluster.
pub type NodeId = u64;

/// A snapshot of the current voter set at a particular log offset.
#[derive(Debug, PartialEq, Eq)]
pub struct VotersRecord {
    /// The set of node IDs that are voting members.
    pub voters: HashSet<NodeId>,
    /// The log offset at which this configuration was written.
    pub offset: u64,
}

#[verifier::ext_equal]
pub struct VotersView {
    pub voters: Set<u64>,
    pub offset: u64,
}

impl View for VotersRecord {
    type V = VotersView;

    open spec fn view(&self) -> VotersView {
        VotersView { voters: self.voters@, offset: self.offset }
    }
}

impl VotersRecord {
    pub fn new(voters: HashSet<NodeId>, offset: u64) -> (r: Self)
        ensures
            r@ == (VotersView { voters: voters@, offset }),
    {
        VotersRecord { voters, offset }
    }

    /// Returns true if the given node is a voting member.
    pub fn contains(&self, node_id: NodeId) -> (b: bool)
        ensures
            b == self@.voters.contains(node_id),
    {
        self.voters.contains(&node_id)
    }

    /// Returns the number of voters required for a majority quorum.
    pub fn quorum_size(&self) -> (n: usize)
        ensures
            n == majority_of(self@.voters.len()),
    {
        self.voters.len() / 2 + 1
    }
}

/// Tracks an in-flight (uncommitted) membership change.
#[derive(Debug)]
struct PendingMembershipChange {
    /// The proposed new voter configuration.
    record: VotersRecord,
    /// The log offset where the change entry was appended.
    offset: u64,
}

/// Manages cluster membership, enforcing the single pending-change invariant
/// required by the Raft protocol.
pub struct MembershipState {
    /// The last committed (durable) voter configuration.
    committed: VotersRecord,
    /// At most one uncommitted membership change may be in flight at a time.
    pending_membership_change: Option<PendingMembershipChange>,
}

/// The committed configuration, and the one in flight with its log offset.
#[verifier::ext_equal]
pub struct MembershipView {
    pub committed: VotersView,
    pub pending: Option<(VotersView, u64)>,
}

impl View for MembershipState {
    type V = MembershipView;

    closed spec fn view(&self) -> MembershipView {
        MembershipView {
            committed: self.committed@,
            pending: match self.pending_membership_change {
                Some(p) => Some((p.record@, p.offset)),
                None => None,
            },
        }
    }
}

/// Errors produced by membership operations.
#[derive(Debug, Clone, Copy, PartialEq, Eq, Structural)]
pub enum MembershipError {
    /// A membership change is already in flight at the given log offset.
    ChangeAlreadyPending { pending_offset: u64 },
    /// No pending change exists to commit.
    NoPendingChange,
    /// The offset supplied to `commit_change` does not match the pending entry.
    OffsetMismatch { expected: u64, actual: u64 },
}

impl MembershipError {
    pub open spec fn spec_message(self) -> Seq<char> {
        match self {
            MembershipError::ChangeAlreadyPending { pending_offset } =>
                "membership change already pending at offset "@ + decimal(pending_offset as nat),
            MembershipError::NoPendingChange => "no pending membership change to commit"@,
            MembershipError::OffsetMismatch { expected, actual } => "offset mismatch: expected "@
                + decimal(expected as nat) + ", got "@ + decimal(actual as nat),
        }
    }

    /// The message that describes the error.
    pub fn message(&self) -> (s: String)
        ensures
            s@ == self.spec_message(),
    {
        match self {
            MembershipError::ChangeAlreadyPending { pending_offset } => {
                let mut s = String::from_str("membership change already pending at offset ");
                append_decimal(&mut s, *pending_offset);
                s
            },
            MembershipError::NoPendingChange => String::from_str(
                "no pending membership change to commit",
            ),
            MembershipError::OffsetMismatch { expected, actual } => {
                let mut s = String::from_str("offset mismatch: expected ");
                append_decimal(&mut s, *expected);
                s.append(", got ");
                append_decimal(&mut s, *actual);
                s
            },
        }
    }
}

impl MembershipView {
    /// The state with nothing in flight.
    pub open spec fn settled(voters: VotersView) -> Self {
        MembershipView { committed: voters, pending: None }
    }

    /// The configuration that counts for quorums: the one in flight, if any.
    pub open spec fn effective(self) -> VotersView {
        match self.pending {
            Some(p) => p.0,
            None => self.committed,
        }
    }

    /// After a change was proposed: refused while one is in flight.
    pub open spec fn proposed(self, voters: Set<u64>, offset: u64) -> Result<
        Self,
        MembershipError,
    > {
        match self.pending {
            Some(p) => Err(MembershipError::ChangeAlreadyPending { pending_offset: p.1 }),
            None => Ok(
                MembershipView {
                    pending: Some((VotersView { voters, offset }, offset)),
                    ..self
                },
            ),
        }
    }

    /// After the change at `offset` was committed.
    pub open spec fn committed_at(self, offset: u64) -> Result<Self, MembershipError> {
        match self.pending {
            None => Err(MembershipError::NoPendingChange),
            Some(p) => if p.1 == offset {
                Ok(Self::settled(p.0))
            } else {
                Err(MembershipError::OffsetMismatch { expected: p.1, actual: offset })
            },
        }
    }

    /// After the log was truncated from `from`.
    pub open spec fn truncated(self, from: u64) -> Self {
        match self.pending {
            Some(p) => if p.1 >= from {
                MembershipView { pending: None, ..self }
            } else {
                self
            },
            None => self,
        }
    }
}

impl MembershipState {
    /// Creates a new `MembershipState` from a committed voter record.
    pub fn new(committed: VotersRecord) -> (r: Self)
        ensures
            r@ == MembershipView::settled(committed@),
    {
        MembershipState { committed, pending_membership_change: None }
    }

    /// Restores membership state from a snapshot.
    pub fn restore_from_snapshot(snapshot_voters: VotersRecord) -> (r: Self)
        ensures
            r@ == MembershipView::settled(snapshot_voters@),
    {
        MembershipState { committed: snapshot_voters, pending_membership_change: None }
    }

    /// Returns the currently committed voter configuration.
    pub fn committed_voters(&self) -> (r: &VotersRecord)
        ensures
            r@ == self@.committed,
    {
        &self.committed
    }

    /// Returns the effective (possibly uncommitted) voter configuration.
    /// If a change is pending, the pending configuration is authoritative for
    /// quorum calculations during replication.
    pub fn effective_voters(&self) -> (r: &VotersRecord)
        ensures
            r@ == self@.effective(),
    {
        match &self.pending_membership_change {
            Some(pending) => &pending.record,
            None => &self.committed,
        }
    }

    /// Returns `true` when a membership change is already in flight.
    pub fn has_pending_change(&self) -> (b: bool)
        ensures
            b == (self@.pending is Some),
    {
        self.pending_membership_change.is_some()
    }

    /// Proposes a new membership change.
    ///
    /// Returns [`MembershipError::ChangeAlreadyPending`] if there is already an
    /// uncommitted membership change: the Raft protocol allows at most one
    /// pending configuration change at a time.
    pub fn propose_change(
        &mut self,
        new_voters: HashSet<NodeId>,
        log_offset: u64,
    ) -> (r: Result<&VotersRecord, MembershipError>)
        ensures
            match old(self)@.proposed(new_voters@, log_offset) {
                Ok(after) => {
                    &&& final(self)@ == after
                    &&& r matches Ok(rec) && rec@ == (VotersView {
                        voters: new_voters@,
                        offset: log_offset,
                    })
                },
                Err(error) => final(self)@ == old(self)@ && r == Err::<&VotersRecord, _>(error),
            },
    {
        if let Some(pending) = &self.pending_membership_change {
            return Err(MembershipError::ChangeAlreadyPending { pending_offset: pending.offset });
        }
        let record = VotersRecord::new(new_voters, log_offset);
        self.pending_membership_change =
        Some(PendingMembershipChange { record, offset: log_offset });
        Ok(self.effective_voters())
    }

    /// Commits the pending membership change once its log entry is committed.
    ///
    /// Returns [`MembershipError::NoPendingChange`] if there is nothing to
    /// commit, or [`MembershipError::OffsetMismatch`] if the committed offset
    /// does not match the pending entry, which then stays pending.
    pub fn commit_change(&mut self, committed_offset: u64) -> (r: Result<
        &VotersRecord,
        MembershipError,
    >)
        ensures
            match old(self)@.committed_at(committed_offset) {
                Ok(after) => {
                    &&& final(self)@ == after
                    &&& r matches Ok(rec) && rec@ == after.committed
                },
                Err(error) => final(self)@ == old(self)@ && r == Err::<&VotersRecord, _>(error),
            },
    {
        match self.pending_membership_change.take() {
            None => Err(MembershipError::NoPendingChange),
            Some(pending) => {
                let expected: u64 = pending.offset;
                if expected != committed_offset {
                    self.pending_membership_change = Some(pending);
                    return Err(
                        MembershipError::OffsetMismatch { expected, actual: committed_offset },
                    );
                }
                self.committed = pending.record;
                Ok(&self.committed)
            },
        }
    }

    /// Clears the pending membership change if its log offset falls at or
    /// beyond `truncate_from`.
    ///
    /// This must be called whenever the log is truncated. Without it, the
    /// pending change would point at a log entry that no longer exists and
    /// block new membership changes.
    pub fn clear_pending_if_truncated(&mut self, truncate_from: u64)
        ensures
            final(self)@ == old(self)@.truncated(truncate_from),
    {
        let clear = match &self.pending_membership_change {
            Some(pending) => pending.offset >= truncate_from,
            None => false,
        };
        if clear {
            self.pending_membership_change = None;
        }
    }

    /// Unconditionally clears any pending membership change.
    /// Useful when reverting to a snapshot that predates the pending entry.
    pub fn clear_pending(&mut self)
        ensures
            final(self)@ == MembershipView::settled(old(self)@.committed),
    {
        self.pending_membership_change = None;
    }

    /// Applies a snapshot, replacing both committed and pending state.
    pub fn apply_snapshot(&mut self, snapshot_voters: VotersRecord)
        ensures
            final(self)@ == MembershipView::settled(snapshot_voters@),
    {
        self.committed = snapshot_voters;
        self.pending_membership_change = None;
    }

    pub open spec fn spec_pending_text(v: MembershipView) -> Seq<char> {
        match v.pending {
            Some(p) => "Some(offset="@ + decimal(p.1 as nat) + ")"@,
            None => "None"@,
        }
    }

    /// The pending change as text: its offset, or `None`.
    pub fn pending_text(&self) -> (s: String)
        ensures
            s@ == Self::spec_pending_text(self@),
    {
        match &self.pending_membership_change {
            Some(pending) => {
                let mut s = String::from_str("Some(offset=");
                append_decimal(&mut s, pending.offset);
                s.append(")");
                s
            },
            None => String::from_str("None"),
        }
    }
}

/// While a change is in flight no other can be proposed, and the refused
/// proposal names the offset of the one in flight.
pub proof fn law_single_change(
    v: MembershipView,
    first: Set<u64>,
    first_offset: u64,
    second: Set<u64>,
    second_offset: u64,
)
    requires
        v.pending is None,
    ensures
        v.proposed(first, first_offset) matches Ok(after) && after.proposed(second, second_offset)
            == Err::<MembershipView, _>(
            MembershipError::ChangeAlreadyPending { pending_offset: first_offset },
        ),
{
}

/// Committing a proposed change at its offset makes it the committed
/// configuration, with nothing in flight.
pub proof fn law_propose_then_commit(v: MembershipView, voters: Set<u64>, offset: u64)
    requires
        v.pending is None,
    ensures
        v.proposed(voters, offset) matches Ok(after) && after.committed_at(offset) == Ok::<
            _,
            MembershipError,
        >(MembershipView::settled(VotersView { voters, offset })),
{
}

/// Truncating the log at or before a proposed change undoes the proposal, so
/// a new one is accepted; truncating behind it changes nothing.
pub proof fn law_truncation_undoes_proposal(
    v: MembershipView,
    voters: Set<u64>,
    offset: u64,
    from: u64,
)
    requires
        v.pending is None,
    ensures
        v.proposed(voters, offset) matches Ok(after) && after.truncated(from) == (if from
            <= offset {
            v
        } else {
            after
        }),
{
}

/// A proposal counts for quorums at once and leaves the committed configuration
/// as it is until it is committed, which it is at its own offset alone.
pub proof fn law_proposal_counts_at_once(
    v: MembershipView,
    voters: Set<u64>,
    offset: u64,
    at: u64,
)
    requires
        v.pending is None,
    ensures
        v.effective() == v.committed,
        v.proposed(voters, offset) matches Ok(after) && {
            &&& after.effective().voters == voters
            &&& after.effective().offset == offset
            &&& after.committed == v.committed
            &&& at == offset ==> (after.committed_at(at) matches Ok(done) && done.pending is None
                && done.committed.voters == voters && done.effective() == done.committed)
            &&& at != offset ==> after.committed_at(at) == Err::<MembershipView, _>(
                MembershipError::OffsetMismatch { expected: offset, actual: at },
            )
        },
        v.committed_at(at) == Err::<MembershipView, _>(MembershipError::NoPendingChange),
{
}

/// Truncation never touches the committed configuration, and a configuration
/// from a snapshot is committed with nothing in flight.
pub proof fn law_committed_outlives_truncation(v: MembershipView, from: u64, voters: VotersView)
    ensures
        v.truncated(from).committed == v.committed,
        v.pending matches Some(p) ==> (v.truncated(from).pending is Some <==> p.1 < from),
        v.pending matches Some(p) ==> (p.1 < from ==> v.truncated(from) == v),
        MembershipView::settled(voters).committed == voters,
        MembershipView::settled(voters).effective() == voters,
        MembershipView::settled(voters).pending is None,
{
}

} // verus!
