//! The follower side of log replication: periodic fetches, and what a fetch
//! response does to a node.
use vstd::prelude::*;


use crate::app_record::AppRecord;
use crate::config::RaftConfig;
use crate::consensus_state::Role;
use crate::deferred_completion::{DeferredCompletionQueue, QueueView};
use crate::epochs::{epochs_before, remove_epochs_from};
use crate::error::{XraftError, XraftErrorView};
use crate::io_action::{push_persist, with_persist, IoAction, IoActionBatch, IoActionView};
use crate::listener::{commit_views, Listener};
use crate::log_entry::{clone_entries, contiguous, entry_views, EntryType, LogEntry, LogEntryView};
use crate::node_state::{entries_between, NodeState, NodeStateView};
use crate::quorum_state::QuorumState;
use crate::rpc::{
    FetchRequest, FetchResponse, FetchResponseView, FetchSnapshotRequest, RpcEnvelope,
    RpcEnvelopeView, RpcPayload, RpcPayloadView, SnapshotId,
};
use crate::text::{append_decimal, decimal};
use crate::traits::StateMachine;
use crate::types::{NodeId, Term};
use crate::voter::VotersRecordView;

verus! {

/// Handles fetch request and response processing on the follower side.
///
/// Sends periodic Fetch RPCs to the known leader, processes responses,
/// truncates the log on divergence, and updates the local high watermark.
pub struct ReplicationManager {
    /// Maximum Fetch response payload size (from config).
    pub max_fetch_bytes: u32,
    /// Milliseconds between periodic Fetch RPCs.
    pub fetch_interval: u64,
}

/// Result of processing a fetch response on the follower side.
#[derive(Debug)]
pub struct FetchResponseResult {
    /// I/O actions to execute (log appends, truncations, RPCs).
    pub io_batch: IoActionBatch,
    /// Whether a snapshot transfer was initiated via the SnapshotCoordinator.
    pub snapshot_transfer_initiated: bool,
}

/// Coordinates snapshot transfers.
///
/// When a fetch response names a snapshot, the [`ReplicationManager`]
/// delegates to a coordinator. The specification functions say which steps an
/// implementation may take; each implementation chooses them, and one that
/// does not may take any.
pub trait SnapshotCoordinator: Send + 'static {
    open spec fn in_progress_step(&self, result: bool) -> bool {
        true
    }

    open spec fn begin_step(
        &self,
        leader_id: NodeId,
        snapshot_id: SnapshotId,
        state: NodeStateView,
        after: &Self,
        batch: Seq<IoActionView>,
    ) -> bool {
        true
    }

    /// Begin a snapshot transfer for the given snapshot from the given leader.
    /// Returns the actions needed to start the transfer.
    fn begin_snapshot_transfer(
        &mut self,
        leader_id: NodeId,
        snapshot_id: &SnapshotId,
        state: &NodeState,
    ) -> (batch: IoActionBatch)
        ensures
            old(self).begin_step(leader_id, *snapshot_id, state@, final(self), batch@),
    ;

    /// Returns true if a snapshot transfer is currently in progress.
    fn is_transfer_in_progress(&self) -> (b: bool)
        ensures
            self.in_progress_step(b),
    ;
}

/// Default [`SnapshotCoordinator`]: asks the leader for the first chunk.
pub struct DefaultSnapshotCoordinator {
    pub in_progress: bool,
    pub max_fetch_bytes: u32,
}

impl DefaultSnapshotCoordinator {
    pub fn new(max_fetch_bytes: u32) -> (r: Self)
        ensures
            r == (DefaultSnapshotCoordinator { in_progress: false, max_fetch_bytes }),
    {
        DefaultSnapshotCoordinator { in_progress: false, max_fetch_bytes }
    }
}

/// The request for the first chunk of a snapshot, with its envelope.
pub open spec fn first_chunk_request(
    state: NodeStateView,
    snapshot_id: SnapshotId,
    max_bytes: u32,
) -> RpcEnvelopeView {
    RpcEnvelopeView {
        cluster_id: state.cluster_id,
        leader_epoch: state.current_term,
        source: state.node_id,
        payload: RpcPayloadView::FetchSnapshotRequest(
            FetchSnapshotRequest { snapshot_id, position: 0, max_bytes },
        ),
    }
}

impl SnapshotCoordinator for DefaultSnapshotCoordinator {
    open spec fn in_progress_step(&self, result: bool) -> bool {
        result == self.in_progress
    }

    open spec fn begin_step(
        &self,
        leader_id: NodeId,
        snapshot_id: SnapshotId,
        state: NodeStateView,
        after: &Self,
        batch: Seq<IoActionView>,
    ) -> bool {
        &&& *after == (DefaultSnapshotCoordinator {
            in_progress: true,
            max_fetch_bytes: self.max_fetch_bytes,
        })
        &&& batch == seq![
            IoActionView::SendRpc(
                leader_id,
                first_chunk_request(state, snapshot_id, self.max_fetch_bytes),
            ),
        ]
    }

    fn begin_snapshot_transfer(
        &mut self,
        leader_id: NodeId,
        snapshot_id: &SnapshotId,
        state: &NodeState,
    ) -> (batch: IoActionBatch) {
        self.in_progress = true;
        let mut batch = IoActionBatch::new();
        let request = FetchSnapshotRequest {
            snapshot_id: *snapshot_id,
            position: 0,
            max_bytes: self.max_fetch_bytes,
        };
        let envelope = RpcEnvelope {
            cluster_id: state.cluster_id,
            leader_epoch: state.current_term,
            source: state.node_id,
            payload: RpcPayload::FetchSnapshotRequest(request),
        };
        batch.push(IoAction::SendRpc(leader_id, envelope));
        assert(batch@ =~= seq![
            IoActionView::SendRpc(
                leader_id,
                first_chunk_request(state@, *snapshot_id, self.max_fetch_bytes),
            ),
        ]);
        batch
    }

    fn is_transfer_in_progress(&self) -> (b: bool) {
        self.in_progress
    }
}

/// The text that rejects a response of an older term.
pub open spec fn stale_epoch_message(epoch: Term, current: Term) -> Seq<char> {
    "stale leader epoch "@ + decimal(epoch.0 as nat) + " < current term "@ + decimal(
        current.0 as nat,
    )
}

/// The text that rejects a response of the current term in another role.
pub open spec fn not_follower_message(role: Role, term: Term) -> Seq<char> {
    "node is "@ + role.spec_name()
        + ", not Follower — ignoring stale fetch response in same term "@ + decimal(
        term.0 as nat,
    )
}

/// The text that rejects a second leader of one term.
pub open spec fn other_leader_message(from: NodeId, known: NodeId) -> Seq<char> {
    "response from "@ + from.spec_text() + " but known leader is "@ + known.spec_text()
}

/// The text that rejects a response with a snapshot and a divergence.
pub open spec fn both_fields_message() -> Seq<char> {
    "response contains both snapshot_id and diverging_epoch"@
}

/// The text that rejects a truncation of committed entries.
pub open spec fn below_watermark_message(point: u64, hw: u64) -> Seq<char> {
    "divergence truncation point "@ + decimal(point as nat)
        + " is below committed high_watermark "@ + decimal(hw as nat)
        + " — cannot un-commit entries (safety violation)"@
}

/// The text that rejects entries which do not start at the end of the log.
pub open spec fn first_offset_message(first: u64, end: u64) -> Seq<char> {
    "first entry offset "@ + decimal(first as nat) + " does not match log_end_offset "@ + decimal(
        end as nat,
    )
}

/// The text that rejects a gap between two entries.
pub open spec fn gap_message(a: u64, b: u64) -> Seq<char> {
    "non-contiguous entries: offset "@ + decimal(a as nat) + " followed by "@ + decimal(b as nat)
}

/// The text of the halt after a state machine refused an entry.
pub open spec fn halt_message(offset: u64, cause: Seq<char>) -> Seq<char> {
    "apply failed at offset "@ + decimal(offset as nat) + ": "@ + cause
        + " — node halting (crash-stop)"@
}

/// How the text starts that reports a voters record which does not decode;
/// the cause follows.
pub open spec fn bad_voters_prefix(offset: u64) -> Seq<char> {
    "failed to deserialize VotersRecord at offset "@ + decimal(offset as nat) + ": "@
}

/// True of a response that names both a snapshot and a divergence.
pub open spec fn has_both(r: FetchResponseView) -> bool {
    r.snapshot_id is Some && r.diverging_epoch is Some
}

/// What a response does to term, vote, leader and role: the new state and
/// what to persist, or why the response is rejected.
pub open spec fn validated(
    s: NodeStateView,
    r: FetchResponseView,
) -> Result<(NodeStateView, Option<QuorumState>), Seq<char>> {
    if r.leader_epoch.0 < s.current_term.0 {
        Err(stale_epoch_message(r.leader_epoch, s.current_term))
    } else if r.leader_epoch.0 > s.current_term.0 {
        Ok(
            (
                NodeStateView {
                    current_term: r.leader_epoch,
                    voted_for: None,
                    leader_id: Some(r.leader_id),
                    role: Role::Follower,
                    votes_received: Set::empty(),
                    pre_votes_received: Set::empty(),
                    ..s
                },
                Some(
                    QuorumState {
                        current_term: r.leader_epoch,
                        voted_for: None,
                        leader_id: Some(r.leader_id),
                        leader_epoch: r.leader_epoch,
                        cluster_id: s.cluster_id,
                    },
                ),
            ),
        )
    } else if s.role != Role::Follower {
        Err(not_follower_message(s.role, s.current_term))
    } else if s.leader_id is Some && s.leader_id->0 != r.leader_id {
        Err(other_leader_message(r.leader_id, s.leader_id->0))
    } else if s.leader_id is Some {
        if has_both(r) {
            Err(both_fields_message())
        } else {
            Ok((s, None))
        }
    } else {
        Ok(
            (
                NodeStateView { leader_id: Some(r.leader_id), ..s },
                Some(
                    QuorumState {
                        current_term: s.current_term,
                        voted_for: s.voted_for,
                        leader_id: Some(r.leader_id),
                        leader_epoch: s.current_term,
                        cluster_id: s.cluster_id,
                    },
                ),
            ),
        )
    }
}

/// The smaller of two offsets.
pub open spec fn min_offset(a: u64, b: u64) -> u64 {
    if a <= b {
        a
    } else {
        b
    }
}

/// The state after a truncation at `point`: the log, a pending membership
/// change and the epochs at or after it are gone.
pub open spec fn diverged(s: NodeStateView, point: u64) -> NodeStateView {
    let t = s.truncated(point);
    NodeStateView {
        pending_membership_change: match s.pending_membership_change {
            Some(p) => if p.offset >= point {
                None
            } else {
                Some(p)
            },
            None => None,
        },
        leader_epoch_checkpoint: epochs_before(s.leader_epoch_checkpoint, point),
        ..t
    }
}

/// The first pair of neighbours whose offsets do not follow each other, up to
/// position `n`.
pub open spec fn first_gap(entries: Seq<LogEntryView>, n: int) -> Option<int>
    decreases n,
{
    if n <= 0 {
        None
    } else {
        match first_gap(entries, n - 1) {
            Some(i) => Some(i),
            None => if n < entries.len() && entries[n].offset != entries[n - 1].offset + 1 {
                Some(n - 1)
            } else {
                None
            },
        }
    }
}

/// How long to wait at `now` for a deadline.
pub open spec fn wait_for(deadline: u64, now: u64) -> u64 {
    if now >= deadline {
        0
    } else {
        (deadline - now) as u64
    }
}

/// What a node does with a fetch response.
pub enum FetchPlan {
    /// The response is rejected with this text.
    Reject { state: NodeStateView, message: Seq<char> },
    /// A snapshot is needed.
    Transfer {
        state: NodeStateView,
        leader_id: NodeId,
        snapshot_id: SnapshotId,
        persist: Option<QuorumState>,
    },
    /// The log is truncated at `point`.
    Truncate { state: NodeStateView, point: u64, persist: Option<QuorumState> },
    /// Entries are appended and those from `old_hw` to before `new_hw` are
    /// committed.
    Append { state: NodeStateView, old_hw: u64, new_hw: u64, persist: Option<QuorumState> },
}

impl ReplicationManager {
    /// The fetch request that a node would send, and to whom.
    pub open spec fn fetch_request(self, s: NodeStateView) -> Option<(NodeId, RpcEnvelopeView)> {
        if s.leader_id is Some && s.role == Role::Follower {
            Some(
                (
                    s.leader_id->0,
                    RpcEnvelopeView {
                        cluster_id: s.cluster_id,
                        leader_epoch: s.current_term,
                        source: s.node_id,
                        payload: RpcPayloadView::FetchRequest(
                            FetchRequest {
                                replica_id: s.node_id,
                                fetch_offset: s.log_end_offset,
                                last_fetched_epoch: s.last_log_term,
                                max_bytes: self.max_fetch_bytes,
                            },
                        ),
                    },
                ),
            )
        } else {
            None
        }
    }

    /// The action that sends the fetch request, where there is one.
    pub open spec fn fetch_actions(self, s: NodeStateView) -> Seq<IoActionView> {
        match self.fetch_request(s) {
            Some(m) => seq![IoActionView::SendRpc(m.0, m.1)],
            None => seq![],
        }
    }

    /// With the next periodic fetch one interval from `now`.
    pub open spec fn fetch_rearmed(self, s: NodeStateView, now: u64) -> NodeStateView {
        NodeStateView { fetch_deadline: (now + self.fetch_interval) as u64, ..s }
    }

    /// With both timers started anew.
    pub open spec fn timers_reset(
        self,
        s: NodeStateView,
        now: u64,
        election_timeout: u64,
    ) -> NodeStateView {
        NodeStateView {
            election_deadline: (now + election_timeout) as u64,
            fetch_deadline: (now + self.fetch_interval) as u64,
            ..s
        }
    }

    /// What the node does with a response.
    pub open spec fn plan(
        self,
        s: NodeStateView,
        r: FetchResponseView,
        now: u64,
        election_timeout: u64,
    ) -> FetchPlan {
        match validated(s, r) {
            Err(message) => FetchPlan::Reject { state: s, message },
            Ok((v, persist)) => {
                let t = self.timers_reset(v, now, election_timeout);
                if has_both(r) {
                    FetchPlan::Reject { state: v, message: both_fields_message() }
                } else if let Some(snapshot_id) = r.snapshot_id {
                    FetchPlan::Transfer { state: t, leader_id: r.leader_id, snapshot_id, persist }
                } else if let Some(d) = r.diverging_epoch {
                    let point = min_offset(d.end_offset, t.log_end_offset);
                    if point < t.high_watermark {
                        FetchPlan::Reject {
                            state: t,
                            message: below_watermark_message(point, t.high_watermark),
                        }
                    } else {
                        FetchPlan::Truncate { state: diverged(t, point), point, persist }
                    }
                } else if r.entries.len() > 0 && r.entries[0].offset != t.log_end_offset {
                    FetchPlan::Reject {
                        state: t,
                        message: first_offset_message(r.entries[0].offset, t.log_end_offset),
                    }
                } else if let Some(i) = first_gap(r.entries, r.entries.len() - 1) {
                    FetchPlan::Reject {
                        state: t,
                        message: gap_message(r.entries[i].offset, r.entries[i + 1].offset),
                    }
                } else {
                    let a = t.with_entries(r.entries);
                    let new_hw = min_offset(r.high_watermark, a.log_end_offset);
                    FetchPlan::Append {
                        state: if new_hw > a.high_watermark {
                            NodeStateView { high_watermark: new_hw, ..a }
                        } else {
                            a
                        },
                        old_hw: a.high_watermark,
                        new_hw,
                        persist,
                    }
                }
            },
        }
    }
}

impl ReplicationManager {
    /// What handling a response computes fits: the deadlines, where the timers
    /// are reset, and the end of the log, where entries are appended.
    pub open spec fn in_range(
        self,
        s: NodeStateView,
        r: FetchResponseView,
        now: u64,
        election_timeout: u64,
    ) -> bool {
        &&& validated(s, r) is Ok && !has_both(r) ==> now + election_timeout <= u64::MAX && now
            + self.fetch_interval <= u64::MAX
        &&& self.plan(s, r, now, election_timeout) is Append ==> s.log_end_offset
            + r.entries.len() <= u64::MAX
    }
}

/// What committing an entry changes in the node's own records.
pub open spec fn noted(s: NodeStateView, e: LogEntryView) -> NodeStateView {
    match e.entry_type {
        EntryType::Command => s,
        EntryType::VotersRecord => match VotersRecordView::decoding(e.payload) {
            Some(rec) => NodeStateView {
                voter_set: rec.voters,
                pending_membership_change: match s.pending_membership_change {
                    Some(p) => if p.offset <= e.offset {
                        None
                    } else {
                        Some(p)
                    },
                    None => None,
                },
                ..s
            },
            None => s,
        },
        EntryType::LeaderChangeMessage => NodeStateView {
            leader_epoch_checkpoint: s.leader_epoch_checkpoint.insert(e.term.0, e.offset),
            ..s
        },
    }
}

/// What committing entries one after the other changes in the node's records.
pub open spec fn noted_all(s: NodeStateView, entries: Seq<LogEntryView>) -> NodeStateView
    decreases entries.len(),
{
    if entries.len() == 0 {
        s
    } else {
        noted(noted_all(s, entries.drop_last()), entries.last())
    }
}

/// True of a voters record that does not decode.
pub open spec fn undecodable(e: LogEntryView) -> bool {
    e.entry_type == EntryType::VotersRecord && VotersRecordView::decoding(e.payload) is None
}

/// `after` is a state machine that has accepted the commands of `entries`,
/// one after the other, and nothing else.
pub open spec fn applied<S: StateMachine>(before: S, entries: Seq<LogEntryView>, after: S) -> bool
    decreases entries.len(),
{
    if entries.len() == 0 {
        after == before
    } else if entries.last().entry_type == EntryType::Command {
        exists|mid: S|
            {
                &&& applied(before, entries.drop_last(), mid)
                &&& #[trigger] mid.apply_step(
                    entries.last().offset,
                    entries.last().payload,
                    &after,
                    Ok(()),
                )
            }
    } else {
        applied(before, entries.drop_last(), after)
    }
}

/// The offsets and payloads of the commands among `entries`.
pub open spec fn commands(entries: Seq<LogEntryView>) -> Seq<(u64, Seq<u8>)> {
    entries.filter(|e: LogEntryView| e.entry_type == EntryType::Command).map_values(
        |e: LogEntryView| (e.offset, e.payload),
    )
}

/// Committing stopped at entry `k`, because the state machine refused it.
pub open spec fn refused_at<S: StateMachine, L: Listener>(
    entries: Seq<LogEntryView>,
    k: int,
    sm_before: S,
    sm_after: S,
    listener_before: L,
    listener_after: L,
    error: XraftErrorView,
) -> bool {
    &&& entries[k].entry_type == EntryType::Command
    &&& exists|mid: S, cause: XraftErrorView|
        {
            &&& #[trigger] applied(sm_before, entries.take(k), mid)
            &&& #[trigger] mid.apply_step(
                entries[k].offset,
                entries[k].payload,
                &sm_after,
                Err(cause),
            )
            &&& error == XraftErrorView::StateMachineApplyError(
                halt_message(entries[k].offset, cause.message()),
            )
        }
    &&& listener_before.shutdown_step(&listener_after)
}

/// Committing stopped at entry `k`, because its voters record does not decode.
pub open spec fn malformed_at<S: StateMachine, L: Listener>(
    entries: Seq<LogEntryView>,
    k: int,
    sm_before: S,
    sm_after: S,
    listener_before: L,
    listener_after: L,
    error: XraftErrorView,
) -> bool {
    &&& undecodable(entries[k])
    &&& applied(sm_before, entries.take(k), sm_after)
    &&& listener_after == listener_before
    &&& exists|cause: Seq<char>|
        error == XraftErrorView::InvalidResponse(#[trigger] (bad_voters_prefix(entries[k].offset) + cause))
}

/// What committing `entries` does to the node, the state machine and the
/// listener, and with which result.
pub open spec fn committed<S: StateMachine, L: Listener>(
    entries: Seq<LogEntryView>,
    s_before: NodeStateView,
    s_after: NodeStateView,
    sm_before: S,
    sm_after: S,
    listener_before: L,
    listener_after: L,
    result: Result<(), XraftErrorView>,
) -> bool {
    match result {
        Ok(_) => {
            &&& forall|i: int| 0 <= i < entries.len() ==> !undecodable(#[trigger] entries[i])
            &&& s_after == noted_all(s_before, entries)
            &&& applied(sm_before, entries, sm_after)
            &&& listener_before.commit_step(commands(entries), &listener_after)
        },
        Err(error) => exists|k: int|
            {
                &&& 0 <= k < entries.len()
                &&& forall|i: int| 0 <= i < k ==> !undecodable(#[trigger] entries[i])
                &&& s_after == noted_all(s_before, #[trigger] entries.take(k))
                &&& {
                    ||| refused_at(
                        entries,
                        k,
                        sm_before,
                        sm_after,
                        listener_before,
                        listener_after,
                        error,
                    )
                    ||| malformed_at(
                        entries,
                        k,
                        sm_before,
                        sm_after,
                        listener_before,
                        listener_after,
                        error,
                    )
                }
            },
    }
}

impl ReplicationManager {
    pub fn new(config: &RaftConfig) -> (r: Self)
        ensures
            r == (ReplicationManager {
                max_fetch_bytes: config.max_fetch_bytes,
                fetch_interval: config.fetch_interval_ms,
            }),
    {
        ReplicationManager {
            max_fetch_bytes: config.max_fetch_bytes,
            fetch_interval: config.fetch_interval_ms,
        }
    }

    /// Build a fetch request to send to the current leader.
    ///
    /// Returns `None` if no leader is known (the follower should wait for an
    /// election) or if the node is not a follower.
    pub fn build_fetch_request(&self, state: &NodeState) -> (r: Option<(NodeId, RpcEnvelope)>)
        ensures
            match r {
                Some(m) => self.fetch_request(state@) == Some((m.0, m.1@)),
                None => self.fetch_request(state@) is None,
            },
            r is Some <==> state.leader_id is Some && state.role == Role::Follower,
            r matches Some(m) ==> {
                &&& state.leader_id == Some(m.0)
                &&& m.1.payload matches RpcPayload::FetchRequest(req)
                &&& req.fetch_offset == state.log_end_offset
                &&& req.last_fetched_epoch == state.last_log_term
            },
    {
        match state.leader_id {
            None => None,
            Some(leader_id) => {
                if state.role != Role::Follower {
                    return None;
                }
                let request = FetchRequest {
                    replica_id: state.node_id,
                    fetch_offset: state.log_end_offset,
                    last_fetched_epoch: state.last_log_term(),
                    max_bytes: self.max_fetch_bytes,
                };
                let envelope = RpcEnvelope {
                    cluster_id: state.cluster_id,
                    leader_epoch: state.current_term,
                    source: state.node_id,
                    payload: RpcPayload::FetchRequest(request),
                };
                Some((leader_id, envelope))
            },
        }
    }

    /// Appends the action that sends the fetch request, where there is one.
    fn push_fetch(&self, state: &NodeState, batch: &mut IoActionBatch)
        ensures
            final(batch)@ == old(batch)@ + self.fetch_actions(state@),
    {
        match self.build_fetch_request(state) {
            Some((leader_id, envelope)) => {
                batch.push(IoAction::SendRpc(leader_id, envelope));
            },
            None => {},
        }
        assert(batch@ =~= old(batch)@ + self.fetch_actions(state@));
    }

    /// The actions of a follower's periodic fetch tick.
    ///
    /// Called when `fetch_deadline` has elapsed. Advances the deadline by the
    /// fetch interval and sends a fetch request if a leader is known.
    pub fn on_fetch_tick(&self, state: &mut NodeState, now: u64) -> (batch: IoActionBatch)
        requires
            now + self.fetch_interval <= u64::MAX,
        ensures
            final(state)@ == self.fetch_rearmed(old(state)@, now),
            batch@ == self.fetch_actions(old(state)@),
    {
        state.fetch_deadline = now + self.fetch_interval;
        let mut batch = IoActionBatch::new();
        self.push_fetch(state, &mut batch);
        assert(batch@ =~= self.fetch_actions(old(state)@));
        batch
    }

    /// Check whether the fetch deadline has elapsed and, if so, execute the
    /// periodic fetch tick.
    ///
    /// Returns the batch of the tick, or `None` if the deadline has not yet
    /// elapsed or the node is not a follower.
    pub fn poll_fetch(&self, state: &mut NodeState, now: u64) -> (r: Option<IoActionBatch>)
        requires
            now + self.fetch_interval <= u64::MAX,
        ensures
            r is Some <==> now >= old(state).fetch_deadline && old(state).role == Role::Follower,
            match r {
                Some(batch) => {
                    &&& final(state)@ == self.fetch_rearmed(old(state)@, now)
                    &&& batch@ == self.fetch_actions(old(state)@)
                },
                None => final(state)@ == old(state)@,
            },
    {
        if now >= state.fetch_deadline && state.role == Role::Follower {
            Some(self.on_fetch_tick(state, now))
        } else {
            None
        }
    }

    /// Milliseconds until the next fetch deadline.
    pub fn time_until_fetch(&self, state: &NodeState, now: u64) -> (d: u64)
        ensures
            d == wait_for(state.fetch_deadline, now),
    {
        if now >= state.fetch_deadline {
            0
        } else {
            state.fetch_deadline - now
        }
    }

    /// Validate a fetch response and update term and leader if needed.
    ///
    /// A higher leader epoch is adopted: the vote is cleared, the leader is
    /// recorded and the node steps down to follower. In the current term a
    /// follower that did not know its leader records it. Either way the
    /// quorum state to persist is returned, and the caller is to append its
    /// action after running application callbacks.
    ///
    /// Rejects responses of an older term, responses of another leader in the
    /// same term, responses received when the node is no longer a follower,
    /// and responses of the known leader with both a snapshot and a
    /// divergence. All checks come before any change: a rejected response
    /// leaves the state as it was.
    pub fn validate_and_update_term(
        &self,
        state: &mut NodeState,
        response: &FetchResponse,
    ) -> (r: Result<Option<QuorumState>, XraftError>)
        ensures
            match r {
                Ok(qs) => validated(old(state)@, response@) == Ok::<
                    (NodeStateView, Option<QuorumState>),
                    Seq<char>,
                >((final(state)@, qs)),
                Err(e) => {
                    &&& final(state)@ == old(state)@
                    &&& validated(old(state)@, response@) is Err
                    &&& e@ == XraftErrorView::InvalidResponse(
                        validated(old(state)@, response@)->Err_0,
                    )
                },
            },
    {
        if response.leader_epoch.0 < state.current_term.0 {
            let mut m = String::from_str("stale leader epoch ");
            append_decimal(&mut m, response.leader_epoch.0);
            m.append(" < current term ");
            append_decimal(&mut m, state.current_term.0);
            return Err(XraftError::InvalidResponse(m));
        }
        if response.leader_epoch.0 > state.current_term.0 {
            state.current_term = response.leader_epoch;
            state.voted_for = None;
            state.leader_id = Some(response.leader_id);
            state.role = Role::Follower;
            state.votes_received.clear();
            state.pre_votes_received.clear();
            return Ok(
                Some(
                    QuorumState {
                        current_term: state.current_term,
                        voted_for: state.voted_for,
                        leader_id: state.leader_id,
                        leader_epoch: state.current_term,
                        cluster_id: state.cluster_id,
                    },
                ),
            );
        }
        if state.role != Role::Follower {
            let mut m = String::from_str("node is ");
            m.append(state.role.name());
            m.append(", not Follower — ignoring stale fetch response in same term ");
            append_decimal(&mut m, state.current_term.0);
            return Err(XraftError::InvalidResponse(m));
        }
        if let Some(known_leader) = state.leader_id {
            if response.leader_id != known_leader {
                let mut m = String::from_str("response from ");
                let from = response.leader_id.text();
                m.append(from.as_str());
                m.append(" but known leader is ");
                let known = known_leader.text();
                m.append(known.as_str());
                return Err(XraftError::InvalidResponse(m));
            }
            if response.snapshot_id.is_some() && response.diverging_epoch.is_some() {
                return Err(both_fields());
            }
            return Ok(None);
        }
        state.leader_id = Some(response.leader_id);
        Ok(
            Some(
                QuorumState {
                    current_term: state.current_term,
                    voted_for: state.voted_for,
                    leader_id: state.leader_id,
                    leader_epoch: state.current_term,
                    cluster_id: state.cluster_id,
                },
            ),
        )
    }

    /// Reset election and fetch deadlines on receipt of a valid response: the
    /// leader is alive.
    pub fn reset_timers(&self, state: &mut NodeState, now: u64, election_timeout: u64)
        requires
            now + election_timeout <= u64::MAX,
            now + self.fetch_interval <= u64::MAX,
        ensures
            final(state)@ == self.timers_reset(old(state)@, now, election_timeout),
    {
        state.election_deadline = now + election_timeout;
        state.fetch_deadline = now + self.fetch_interval;
    }

    /// Notify the application of newly committed entries.
    ///
    /// Called when the high watermark advances from `old_hw` to `new_hw`.
    /// Processes the entries in between in fixed order:
    ///   1. `StateMachine::apply` for each command; voters records and leader
    ///      change messages update the node's own records;
    ///   2. `Listener::handle_commit` once with the batch of commands, even
    ///      if there are none;
    ///   3. pending proposals below the new watermark are completed.
    ///
    /// If the state machine refuses a command the node halts: the listener is
    /// told to shut down and the error is returned.
    pub fn execute_commit_notification<S: StateMachine, L: Listener>(
        &self,
        state: &mut NodeState,
        old_hw: u64,
        new_hw: u64,
        state_machine: &mut S,
        listener: &mut L,
        completion_queue: &mut DeferredCompletionQueue,
    ) -> (r: Result<(), XraftError>)
        ensures
            committed(
                entries_between(old(state)@.log, old_hw, new_hw),
                old(state)@,
                final(state)@,
                *old(state_machine),
                *final(state_machine),
                *old(listener),
                *final(listener),
                crate::traits::outcome(r),
            ),
            match r {
                Ok(_) => old(completion_queue)@.completed(new_hw, final(completion_queue)@),
                Err(_) => final(completion_queue)@ == old(completion_queue)@,
            },
            final(state)@.log == old(state)@.log,
            final(state)@.log_end_offset == old(state)@.log_end_offset,
            final(state)@.high_watermark == old(state)@.high_watermark,
    {
        let entries = state.entries_in_range(old_hw, new_hw);
        let ghost all = entry_views(entries@);
        let ghost s0 = state@;
        let ghost sm0 = *state_machine;
        let ghost l0 = *listener;
        let mut batch: Vec<(u64, AppRecord)> = Vec::new();
        let mut i: usize = 0;
        proof {
            assert(all.take(0) =~= Seq::<LogEntryView>::empty());
            lemma_commands_empty();
            assert(commit_views(batch@) =~= commands(all.take(0)));
        }
        while i < entries.len()
            invariant
                i <= entries@.len(),
                all == entry_views(entries@),
                all == entries_between(old(state)@.log, old_hw, new_hw),
                s0 == old(state)@,
                sm0 == *old(state_machine),
                l0 == *old(listener),
                *listener == l0,
                completion_queue@ == old(completion_queue)@,
                state@ == noted_all(s0, all.take(i as int)),
                applied(sm0, all.take(i as int), *state_machine),
                commit_views(batch@) == commands(all.take(i as int)),
                forall|k: int| 0 <= k < i ==> !undecodable(#[trigger] all[k]),
                state@.log == s0.log,
                state@.log_end_offset == s0.log_end_offset,
                state@.high_watermark == s0.high_watermark,
            decreases entries@.len() - i,
        {
            let entry = &entries[i];
            let ghost e = entry@;
            let ghost taken = all.take(i as int);
            proof {
                assert(all[i as int] == e);
                assert(all.take(i + 1).drop_last() =~= taken);
                assert(all.take(i + 1).last() == e);
                lemma_commands_push(taken, e);
                assert(taken.push(e) =~= all.take(i + 1));
            }
            match entry.entry_type {
                EntryType::Command => {
                    let record = entry.as_app_record();
                    let ghost mid = *state_machine;
                    match state_machine.apply(entry.offset, &record) {
                        Ok(_) => {},
                        Err(e) => {
                            listener.begin_shutdown();
                            let mut m = String::from_str("apply failed at offset ");
                            append_decimal(&mut m, entry.offset);
                            m.append(": ");
                            let cause = e.message();
                            m.append(cause.as_str());
                            m.append(" — node halting (crash-stop)");
                            proof {
                                assert(applied(sm0, all.take(i as int), mid));
                                assert(mid.apply_step(
                                    all[i as int].offset,
                                    all[i as int].payload,
                                    state_machine,
                                    Err(e@),
                                ));
                                assert(refused_at(
                                    all,
                                    i as int,
                                    sm0,
                                    *state_machine,
                                    l0,
                                    *listener,
                                    XraftErrorView::StateMachineApplyError(m@),
                                ));
                            }
                            return Err(XraftError::StateMachineApplyError(m));
                        },
                    }
                    let ghost prev = batch@;
                    batch.push((entry.offset, record));
                    proof {
                        assert(commit_views(batch@) =~= commit_views(prev).push(
                            (e.offset, e.payload),
                        ));
                        assert(applied(sm0, all.take(i + 1).drop_last(), mid));
                        assert(mid.apply_step(e.offset, e.payload, state_machine, Ok(())));
                        assert(applied(sm0, all.take(i + 1), *state_machine));
                    }
                },
                EntryType::VotersRecord => {
                    match entry.decode_voters() {
                        Err(cause) => {
                            let mut m = String::from_str(
                                "failed to deserialize VotersRecord at offset ",
                            );
                            append_decimal(&mut m, entry.offset);
                            m.append(": ");
                            m.append(cause.as_str());
                            proof {
                                assert(m@ == bad_voters_prefix(all[i as int].offset) + cause@);
                                assert(malformed_at(
                                    all,
                                    i as int,
                                    sm0,
                                    *state_machine,
                                    l0,
                                    *listener,
                                    XraftErrorView::InvalidResponse(m@),
                                ));
                            }
                            return Err(XraftError::InvalidResponse(m));
                        },
                        Ok(record) => {
                            state.voter_set = record.voters;
                            let clear = match &state.pending_membership_change {
                                Some(pending) => pending.offset <= entry.offset,
                                None => false,
                            };
                            if clear {
                                state.pending_membership_change = None;
                            }
                            assert(state@ =~= noted(noted_all(s0, taken), e));
                        },
                    }
                },
                EntryType::LeaderChangeMessage => {
                    state.leader_epoch_checkpoint.insert(entry.term.0, entry.offset);
                    assert(state@ =~= noted(noted_all(s0, taken), e));
                },
            }
            i = i + 1;
        }
        assert(all.take(i as int) =~= all);
        listener.handle_commit(batch.as_slice());
        let _ = completion_queue.complete(new_hw);
        Ok(())
    }
}

pub proof fn lemma_commands_empty()
    ensures
        commands(Seq::<LogEntryView>::empty()) == Seq::<(u64, Seq<u8>)>::empty(),
{
    reveal(Seq::filter);
    assert(commands(Seq::<LogEntryView>::empty()) =~= Seq::<(u64, Seq<u8>)>::empty());
}

/// A further entry adds to the commands exactly if it is one.
pub proof fn lemma_commands_push(entries: Seq<LogEntryView>, e: LogEntryView)
    ensures
        commands(entries.push(e)) == (if e.entry_type == EntryType::Command {
            commands(entries).push((e.offset, e.payload))
        } else {
            commands(entries)
        }),
{
    reveal(Seq::filter);
    let is_command = |e: LogEntryView| e.entry_type == EntryType::Command;
    assert(entries.push(e).drop_last() =~= entries);
    if e.entry_type == EntryType::Command {
        assert(entries.push(e).filter(is_command) == entries.filter(is_command).push(e));
        assert(commands(entries.push(e)) =~= commands(entries).push((e.offset, e.payload)));
    }
}

/// The error that rejects a response with a snapshot and a divergence.
fn both_fields() -> (e: XraftError)
    ensures
        e@ == XraftErrorView::InvalidResponse(both_fields_message()),
{
    XraftError::InvalidResponse(
        String::from_str("response contains both snapshot_id and diverging_epoch"),
    )
}

/// The position before the first gap in the entries' offsets.
fn find_gap(entries: &Vec<LogEntry>) -> (r: Option<usize>)
    ensures
        match r {
            Some(i) => i + 1 < entries@.len() && first_gap(
                entry_views(entries@),
                entries@.len() - 1,
            ) == Some(i as int),
            None => first_gap(entry_views(entries@), entries@.len() - 1) is None && contiguous(
                entry_views(entries@),
            ),
        },
{
    let ghost all = entry_views(entries@);
    if entries.len() == 0 {
        return None;
    }
    let mut i: usize = 0;
    while i < entries.len() - 1
        invariant
            all == entry_views(entries@),
            i < entries@.len(),
            first_gap(all, i as int) is None,
            forall|k: int| 0 <= k <= i ==> #[trigger] all[k].offset == all[0].offset + k,
        decreases entries@.len() - i,
    {
        let a: u64 = entries[i].offset;
        let b: u64 = entries[i + 1].offset;
        assert(all[i as int] == entries@[i as int]@);
        assert(all[i + 1] == entries@[i + 1]@);
        if a == u64::MAX || b != a + 1 {
            proof {
                assert(first_gap(all, i + 1) == Some(i as int));
                lemma_gap_stays(all, i + 1, all.len() - 1);
            }
            return Some(i);
        }
        i = i + 1;
    }
    None
}

/// A gap that was found is the one found with more entries in view.
proof fn lemma_gap_stays(entries: Seq<LogEntryView>, n: int, m: int)
    requires
        n <= m,
        first_gap(entries, n) is Some,
    ensures
        first_gap(entries, m) == first_gap(entries, n),
    decreases m - n,
{
    if n < m {
        lemma_gap_stays(entries, n, m - 1);
    }
}

/// The actions that store the entries of a response.
pub open spec fn append_actions(entries: Seq<LogEntryView>) -> Seq<IoActionView> {
    if entries.len() > 0 {
        seq![IoActionView::AppendLog(entries)]
    } else {
        seq![]
    }
}

/// The result is a success with these actions.
pub open spec fn succeeds_with(
    r: Result<FetchResponseResult, XraftError>,
    actions: Seq<IoActionView>,
    initiated: bool,
) -> bool {
    r matches Ok(res) && res.io_batch@ == actions && res.snapshot_transfer_initiated == initiated
}

/// The coordinator was asked to begin a transfer, and what it returned is
/// passed on.
pub open spec fn transfer_begun<SC: SnapshotCoordinator>(
    before: SC,
    leader_id: NodeId,
    snapshot_id: SnapshotId,
    state: NodeStateView,
    after: SC,
    persist: Option<QuorumState>,
    r: Result<FetchResponseResult, XraftError>,
) -> bool {
    exists|batch: Seq<IoActionView>|
        {
            &&& #[trigger] before.begin_step(leader_id, snapshot_id, state, &after, batch)
            &&& succeeds_with(r, with_persist(batch, persist), true)
        }
}

/// The high watermark did not go back, and is within the log if it was.
pub open spec fn watermark_kept(before: NodeStateView, after: NodeStateView) -> bool {
    &&& before.high_watermark <= after.high_watermark
    &&& before.high_watermark <= before.log_end_offset ==> after.high_watermark
        <= after.log_end_offset
}

/// A response that names neither a snapshot nor a divergence makes the log
/// longer by its entries, and takes the high watermark to the smaller of the
/// leader's and the end of the log, unless it is there already.
pub open spec fn advanced(
    before: NodeStateView,
    response: FetchResponseView,
    after: NodeStateView,
) -> bool {
    let reachable = if response.high_watermark <= after.log_end_offset {
        response.high_watermark
    } else {
        after.log_end_offset
    };
    response.snapshot_id is None && response.diverging_epoch is None ==> {
        &&& after.log_end_offset == before.log_end_offset + response.entries.len()
        &&& after.high_watermark == (if reachable > before.high_watermark {
            reachable
        } else {
            before.high_watermark
        })
    }
}

impl ReplicationManager {
    /// A node with the given callbacks has handled a response: how everything
    /// looked before and after, and with which result.
    pub open spec fn handled<S: StateMachine, L: Listener, SC: SnapshotCoordinator>(
        self,
        plan: FetchPlan,
        entries: Seq<LogEntryView>,
        s_after: NodeStateView,
        sm_before: S,
        sm_after: S,
        listener_before: L,
        listener_after: L,
        queue_before: QueueView,
        queue_after: QueueView,
        sc_before: SC,
        sc_after: SC,
        r: Result<FetchResponseResult, XraftError>,
    ) -> bool {
        match plan {
            FetchPlan::Reject { state, message } => {
                &&& s_after == state
                &&& sm_after == sm_before
                &&& listener_after == listener_before
                &&& queue_after == queue_before
                &&& sc_after == sc_before
                &&& r matches Err(e) && e@ == XraftErrorView::InvalidResponse(message)
            },
            FetchPlan::Transfer { state, leader_id, snapshot_id, persist } => {
                &&& s_after == state
                &&& sm_after == sm_before
                &&& listener_after == listener_before
                &&& queue_after == queue_before
                &&& (sc_before.in_progress_step(true) && sc_after == sc_before && succeeds_with(
                    r,
                    with_persist(seq![], persist),
                    false,
                )) || (sc_before.in_progress_step(false) && transfer_begun(
                    sc_before,
                    leader_id,
                    snapshot_id,
                    state,
                    sc_after,
                    persist,
                    r,
                ))
            },
            FetchPlan::Truncate { state, point, persist } => {
                &&& s_after == state
                &&& sm_after == sm_before
                &&& listener_after == listener_before
                &&& queue_after == queue_before.failed(point)
                &&& sc_after == sc_before
                &&& succeeds_with(
                    r,
                    with_persist(
                        seq![IoActionView::TruncateSuffix(point)] + self.fetch_actions(state),
                        persist,
                    ),
                    false,
                )
            },
            FetchPlan::Append { state, old_hw, new_hw, persist } => {
                &&& sc_after == sc_before
                &&& if new_hw > old_hw {
                    &&& committed(
                        entries_between(state.log, old_hw, new_hw),
                        state,
                        s_after,
                        sm_before,
                        sm_after,
                        listener_before,
                        listener_after,
                        match r {
                            Ok(_) => Ok(()),
                            Err(e) => Err(e@),
                        },
                    )
                    &&& if r is Ok {
                        queue_before.completed(new_hw, queue_after)
                    } else {
                        queue_after == queue_before
                    }
                } else {
                    &&& s_after == state
                    &&& sm_after == sm_before
                    &&& listener_after == listener_before
                    &&& queue_after == queue_before
                    &&& r is Ok
                }
                &&& r is Ok ==> succeeds_with(
                    r,
                    with_persist(append_actions(entries), persist),
                    false,
                )
            },
        }
    }

    /// Process a fetch response received from the leader.
    ///
    /// 1. Validate response leader and term. A response with both a snapshot
    ///    and a divergence is rejected; a higher term that it carried stays
    ///    adopted.
    /// 2. Reset election and fetch timers.
    /// 3. If a snapshot is named, delegate to the coordinator, unless a
    ///    transfer is already in progress.
    /// 4. If a divergence is named, truncate the local log and fetch again.
    ///    Committed entries are never truncated.
    /// 5. Otherwise, append received entries, advance the high watermark to
    ///    the smaller of the leader's and the end of the local log, and notify
    ///    the application of what is newly committed.
    ///
    /// The node's state changes first, then callbacks run, then the actions
    /// are collected; an action that saves the quorum state comes last.
    pub fn handle_fetch_response<S: StateMachine, L: Listener, SC: SnapshotCoordinator>(
        &self,
        state: &mut NodeState,
        response: &FetchResponse,
        state_machine: &mut S,
        listener: &mut L,
        completion_queue: &mut DeferredCompletionQueue,
        snapshot_coordinator: &mut SC,
        now: u64,
        election_timeout: u64,
    ) -> (r: Result<FetchResponseResult, XraftError>)
        requires
            old(state)@.wf(),
            self.in_range(old(state)@, response@, now, election_timeout),
        ensures
            self.handled(
                self.plan(old(state)@, response@, now, election_timeout),
                response@.entries,
                final(state)@,
                *old(state_machine),
                *final(state_machine),
                *old(listener),
                *final(listener),
                old(completion_queue)@,
                final(completion_queue)@,
                *old(snapshot_coordinator),
                *final(snapshot_coordinator),
                r,
            ),
            final(state)@.wf(),
            watermark_kept(old(state)@, final(state)@),
            r is Ok ==> advanced(old(state)@, response@, final(state)@),
    {
        let ghost s0 = state@;
        let ghost resp = response@;
        let mut io_batch = IoActionBatch::new();
        let persist = match self.validate_and_update_term(state, response) {
            Ok(qs) => qs,
            Err(e) => {
                return Err(e);
            },
        };
        if response.snapshot_id.is_some() && response.diverging_epoch.is_some() {
            return Err(both_fields());
        }
        self.reset_timers(state, now, election_timeout);
        let ghost t = state@;

        if let Some(sid) = response.snapshot_id {
            if snapshot_coordinator.is_transfer_in_progress() {
                push_persist(&mut io_batch, persist);
                return Ok(FetchResponseResult { io_batch, snapshot_transfer_initiated: false });
            }
            let batch = snapshot_coordinator.begin_snapshot_transfer(
                response.leader_id,
                &sid,
                state,
            );
            let ghost started = batch@;
            io_batch.extend(batch);
            assert(io_batch@ =~= started);
            push_persist(&mut io_batch, persist);
            assert(old(snapshot_coordinator).begin_step(
                response.leader_id,
                sid,
                t,
                snapshot_coordinator,
                started,
            ));
            let result: Result<FetchResponseResult, XraftError> = Ok(
                FetchResponseResult { io_batch, snapshot_transfer_initiated: true },
            );
            assert(succeeds_with(result, with_persist(started, persist), true));
            assert(transfer_begun(
                *old(snapshot_coordinator),
                response.leader_id,
                sid,
                t,
                *snapshot_coordinator,
                persist,
                result,
            ));
            return result;
        }
        if let Some(diverging) = response.diverging_epoch {
            let point: u64 = if diverging.end_offset <= state.log_end_offset {
                diverging.end_offset
            } else {
                state.log_end_offset
            };
            if point < state.high_watermark {
                let mut m = String::from_str("divergence truncation point ");
                append_decimal(&mut m, point);
                m.append(" is below committed high_watermark ");
                append_decimal(&mut m, state.high_watermark);
                m.append(" — cannot un-commit entries (safety violation)");
                return Err(XraftError::InvalidResponse(m));
            }
            state.truncate_suffix(point);
            let clear = match &state.pending_membership_change {
                Some(pending) => pending.offset >= point,
                None => false,
            };
            if clear {
                state.pending_membership_change = None;
            }
            remove_epochs_from(&mut state.leader_epoch_checkpoint, point);
            assert(state@ =~= diverged(t, point));
            completion_queue.fail_at_or_above(point);
            io_batch.push(IoAction::TruncateSuffix(point));
            self.push_fetch(state, &mut io_batch);
            assert(io_batch@ =~= seq![IoActionView::TruncateSuffix(point)] + self.fetch_actions(
                state@,
            ));
            push_persist(&mut io_batch, persist);
            return Ok(FetchResponseResult { io_batch, snapshot_transfer_initiated: false });
        }
        let has_entries = response.entries.len() > 0;
        if has_entries {
            let first: u64 = response.entries[0].offset;
            assert(resp.entries[0] == response.entries@[0]@);
            if first != state.log_end_offset {
                let mut m = String::from_str("first entry offset ");
                append_decimal(&mut m, first);
                m.append(" does not match log_end_offset ");
                append_decimal(&mut m, state.log_end_offset);
                return Err(XraftError::InvalidResponse(m));
            }
            if let Some(i) = find_gap(&response.entries) {
                assert(resp.entries[i as int] == response.entries@[i as int]@);
                assert(resp.entries[i + 1] == response.entries@[i + 1]@);
                let mut m = String::from_str("non-contiguous entries: offset ");
                append_decimal(&mut m, response.entries[i].offset);
                m.append(" followed by ");
                append_decimal(&mut m, response.entries[i + 1].offset);
                return Err(XraftError::InvalidResponse(m));
            }
            proof {
                lemma_no_gap(resp.entries, resp.entries.len() - 1);
                let last = resp.entries.len() - 1;
                assert(resp.entries[last] == response.entries@[last]@);
            }
            state.append_entries(&response.entries);
        }
        assert(first_gap(resp.entries, resp.entries.len() - 1) is None);
        assert(state@ == t.with_entries(resp.entries));
        let old_hw: u64 = state.high_watermark;
        let new_hw: u64 = if response.high_watermark <= state.log_end_offset {
            response.high_watermark
        } else {
            state.log_end_offset
        };
        if new_hw > old_hw {
            state.high_watermark = new_hw;
            match self.execute_commit_notification(
                state,
                old_hw,
                new_hw,
                state_machine,
                listener,
                completion_queue,
            ) {
                Ok(_) => {},
                Err(e) => {
                    return Err(e);
                },
            }
        }
        if has_entries {
            io_batch.push(IoAction::AppendLog(clone_entries(&response.entries)));
        }
        assert(io_batch@ =~= append_actions(resp.entries));
        push_persist(&mut io_batch, persist);
        Ok(FetchResponseResult { io_batch, snapshot_transfer_initiated: false })
    }
}

/// The position of a message's kind among all kinds.
pub open spec fn payload_index(p: RpcPayloadView) -> nat {
    match p {
        RpcPayloadView::VoteRequest(_) => 0,
        RpcPayloadView::VoteResponse(_) => 1,
        RpcPayloadView::FetchRequest(_) => 2,
        RpcPayloadView::FetchResponse(_) => 3,
        RpcPayloadView::FetchSnapshotRequest(_) => 4,
        RpcPayloadView::FetchSnapshotResponse(_) => 5,
    }
}

/// Why a message does not reach the handler of fetch responses.
pub open spec fn message_refused(
    s: NodeStateView,
    envelope: RpcEnvelopeView,
) -> Option<XraftErrorView> {
    if envelope.cluster_id != s.cluster_id {
        Some(XraftErrorView::InvalidClusterId)
    } else {
        match envelope.payload {
            RpcPayloadView::FetchResponse(response) => if envelope.source != response.leader_id {
                Some(
                    XraftErrorView::InvalidResponse(
                        "envelope source "@ + envelope.source.spec_text()
                            + " does not match response leader_id "@
                            + response.leader_id.spec_text(),
                    ),
                )
            } else {
                None
            },
            p => Some(
                XraftErrorView::InvalidResponse(
                    "RaftNode follower pipeline does not handle Discriminant("@ + decimal(
                        payload_index(p),
                    ) + ")"@,
                ),
            ),
        }
    }
}

/// Wires the follower's fetch pipeline into the event loop: dispatches
/// inbound messages, drives periodic fetch ticks, and hands the resulting
/// batches to the caller.
pub struct RaftNode {
    pub replication: ReplicationManager,
}

impl RaftNode {
    pub fn new(config: &RaftConfig) -> (r: Self)
        ensures
            r.replication == (ReplicationManager {
                max_fetch_bytes: config.max_fetch_bytes,
                fetch_interval: config.fetch_interval_ms,
            }),
    {
        RaftNode { replication: ReplicationManager::new(config) }
    }

    /// Called by the event loop when the fetch deadline elapses. Returns a
    /// batch that sends a fetch request if one is due and a leader is known,
    /// or an empty batch otherwise.
    pub fn tick(&self, state: &mut NodeState, now: u64) -> (batch: IoActionBatch)
        requires
            now + self.replication.fetch_interval <= u64::MAX,
        ensures
            self.replication.ticked(old(state)@, now, final(state)@, batch@),
    {
        self.replication.run_tick(state, now)
    }

    /// The next fetch deadline.
    pub fn next_fetch_deadline(&self, state: &NodeState) -> (d: u64)
        ensures
            d == state.fetch_deadline,
    {
        state.fetch_deadline
    }

    /// Dispatch an inbound message through the follower pipeline.
    ///
    /// Messages of another cluster are refused, as are fetch responses whose
    /// sender is not the leader they name. Messages other than fetch responses
    /// are refused too, for the caller to dispatch elsewhere.
    pub fn handle_message<S: StateMachine, L: Listener, SC: SnapshotCoordinator>(
        &self,
        state: &mut NodeState,
        envelope: &RpcEnvelope,
        state_machine: &mut S,
        listener: &mut L,
        completion_queue: &mut DeferredCompletionQueue,
        snapshot_coordinator: &mut SC,
        now: u64,
        election_timeout: u64,
    ) -> (r: Result<FetchResponseResult, XraftError>)
        requires
            old(state)@.wf(),
            message_refused(old(state)@, envelope@) is None ==> (envelope.payload matches
                RpcPayload::FetchResponse(response) ==> self.replication.in_range(
                old(state)@,
                response@,
                now,
                election_timeout,
            )),
        ensures
            match message_refused(old(state)@, envelope@) {
                Some(error) => {
                    &&& r matches Err(e) && e@ == error
                    &&& final(state)@ == old(state)@
                    &&& *final(state_machine) == *old(state_machine)
                    &&& *final(listener) == *old(listener)
                    &&& final(completion_queue)@ == old(completion_queue)@
                    &&& *final(snapshot_coordinator) == *old(snapshot_coordinator)
                },
                None => envelope.payload matches RpcPayload::FetchResponse(response)
                    && self.replication.handled(
                    self.replication.plan(old(state)@, response@, now, election_timeout),
                    response@.entries,
                    final(state)@,
                    *old(state_machine),
                    *final(state_machine),
                    *old(listener),
                    *final(listener),
                    old(completion_queue)@,
                    final(completion_queue)@,
                    *old(snapshot_coordinator),
                    *final(snapshot_coordinator),
                    r,
                ) && (r is Ok ==> advanced(old(state)@, response@, final(state)@)),
            },
            final(state)@.wf(),
            watermark_kept(old(state)@, final(state)@),
    {
        if envelope.cluster_id != state.cluster_id {
            return Err(XraftError::InvalidClusterId);
        }
        let index: u64 = match &envelope.payload {
            RpcPayload::FetchResponse(response) => {
                if envelope.source != response.leader_id {
                    let mut m = String::from_str("envelope source ");
                    let source = envelope.source.text();
                    m.append(source.as_str());
                    m.append(" does not match response leader_id ");
                    let leader = response.leader_id.text();
                    m.append(leader.as_str());
                    return Err(XraftError::InvalidResponse(m));
                }
                return self.replication.handle_fetch_response(
                    state,
                    response,
                    state_machine,
                    listener,
                    completion_queue,
                    snapshot_coordinator,
                    now,
                    election_timeout,
                );
            },
            RpcPayload::VoteRequest(_) => 0,
            RpcPayload::VoteResponse(_) => 1,
            RpcPayload::FetchRequest(_) => 2,
            RpcPayload::FetchSnapshotRequest(_) => 4,
            RpcPayload::FetchSnapshotResponse(_) => 5,
        };
        let mut m = String::from_str(
            "RaftNode follower pipeline does not handle Discriminant(",
        );
        append_decimal(&mut m, index);
        m.append(")");
        Err(XraftError::InvalidResponse(m))
    }

    /// Access the underlying [`ReplicationManager`].
    pub fn replication(&self) -> (r: &ReplicationManager)
        ensures
            *r == self.replication,
    {
        &self.replication
    }
}

impl ReplicationManager {
    /// What a tick of the event loop does.
    pub open spec fn ticked(
        self,
        before: NodeStateView,
        now: u64,
        after: NodeStateView,
        batch: Seq<IoActionView>,
    ) -> bool {
        if now >= before.fetch_deadline && before.role == Role::Follower {
            &&& after == self.fetch_rearmed(before, now)
            &&& batch == self.fetch_actions(before)
        } else {
            after == before && batch == Seq::<IoActionView>::empty()
        }
    }

    fn run_tick(&self, state: &mut NodeState, now: u64) -> (batch: IoActionBatch)
        requires
            now + self.fetch_interval <= u64::MAX,
        ensures
            self.ticked(old(state)@, now, final(state)@, batch@),
    {
        match self.poll_fetch(state, now) {
            Some(batch) => batch,
            None => IoActionBatch::new(),
        }
    }
}

/// Drives periodic fetches from an event loop, which calls
/// [`FollowerEventLoop::run_tick`] on each iteration.
pub struct FollowerEventLoop {
    pub replication: ReplicationManager,
}

impl FollowerEventLoop {
    pub fn new(config: &RaftConfig) -> (r: Self)
        ensures
            r.replication == (ReplicationManager {
                max_fetch_bytes: config.max_fetch_bytes,
                fetch_interval: config.fetch_interval_ms,
            }),
    {
        FollowerEventLoop { replication: ReplicationManager::new(config) }
    }

    /// Checks the fetch deadline against `now` and fires a fetch if due.
    pub fn run_tick(&self, state: &mut NodeState, now: u64) -> (batch: IoActionBatch)
        requires
            now + self.replication.fetch_interval <= u64::MAX,
        ensures
            self.replication.ticked(old(state)@, now, final(state)@, batch@),
    {
        self.replication.run_tick(state, now)
    }

    /// Milliseconds until the next fetch deadline.
    pub fn time_until_next_tick(&self, state: &NodeState, now: u64) -> (d: u64)
        ensures
            d == wait_for(state.fetch_deadline, now),
    {
        self.replication.time_until_fetch(state, now)
    }

    /// Delegate to [`ReplicationManager::handle_fetch_response`].
    pub fn handle_response<S: StateMachine, L: Listener, SC: SnapshotCoordinator>(
        &self,
        state: &mut NodeState,
        response: &FetchResponse,
        state_machine: &mut S,
        listener: &mut L,
        completion_queue: &mut DeferredCompletionQueue,
        snapshot_coordinator: &mut SC,
        now: u64,
        election_timeout: u64,
    ) -> (r: Result<FetchResponseResult, XraftError>)
        requires
            old(state)@.wf(),
            self.replication.in_range(old(state)@, response@, now, election_timeout),
        ensures
            self.replication.handled(
                self.replication.plan(old(state)@, response@, now, election_timeout),
                response@.entries,
                final(state)@,
                *old(state_machine),
                *final(state_machine),
                *old(listener),
                *final(listener),
                old(completion_queue)@,
                final(completion_queue)@,
                *old(snapshot_coordinator),
                *final(snapshot_coordinator),
                r,
            ),
            final(state)@.wf(),
            watermark_kept(old(state)@, final(state)@),
            r is Ok ==> advanced(old(state)@, response@, final(state)@),
    {
        self.replication.handle_fetch_response(
            state,
            response,
            state_machine,
            listener,
            completion_queue,
            snapshot_coordinator,
            now,
            election_timeout,
        )
    }

    /// Access the underlying [`ReplicationManager`].
    pub fn replication(&self) -> (r: &ReplicationManager)
        ensures
            *r == self.replication,
    {
        &self.replication
    }
}

/// A truncation never reaches below the high watermark, so no committed entry
/// leaves the log.
pub proof fn law_truncation_keeps_committed(
    mgr: ReplicationManager,
    s: NodeStateView,
    r: FetchResponseView,
    now: u64,
    election_timeout: u64,
)
    ensures
        mgr.plan(s, r, now, election_timeout) matches FetchPlan::Truncate { state, point, persist }
            ==> {
            &&& point >= s.high_watermark
            &&& state.high_watermark == s.high_watermark
            &&& entries_between(state.log, 0, s.high_watermark) == entries_between(
                s.log,
                0,
                s.high_watermark,
            )
        },
{
    if let FetchPlan::Truncate { state, point, persist } = mgr.plan(s, r, now, election_timeout) {
        lemma_filter_twice(s.log, point, s.high_watermark);
    }
}

proof fn lemma_filter_twice(log: Seq<LogEntryView>, point: u64, hw: u64)
    requires
        hw <= point,
    ensures
        entries_between(crate::node_state::entries_below(log, point), 0, hw) == entries_between(
            log,
            0,
            hw,
        ),
    decreases log.len(),
{
    reveal(Seq::filter);
    let keep = |e: LogEntryView| e.offset < point;
    let want = |e: LogEntryView| 0 <= e.offset < hw;
    if log.len() > 0 {
        lemma_filter_twice(log.drop_last(), point, hw);
        let kept = log.drop_last().filter(keep);
        if keep(log.last()) {
            assert(kept.push(log.last()).drop_last() =~= kept);
        }
    }
}

/// Whatever a node does with a response, its high watermark does not go down,
/// and it stays within the log where it was within it. Where the response is
/// taken for its entries, the log grows by them and the watermark follows the
/// leader's as far as the log goes.
pub proof fn law_watermark_is_monotone(
    mgr: ReplicationManager,
    s: NodeStateView,
    r: FetchResponseView,
    now: u64,
    election_timeout: u64,
)
    requires
        mgr.plan(s, r, now, election_timeout) is Append ==> s.log_end_offset + r.entries.len()
            <= u64::MAX,
    ensures
        ({
            let plan = mgr.plan(s, r, now, election_timeout);
            &&& watermark_kept(s, plan.state())
            &&& plan is Append ==> advanced(s, r, plan.state())
        }),
{
    let plan = mgr.plan(s, r, now, election_timeout);
    if let FetchPlan::Append { state, old_hw, new_hw, persist } = plan {
        if r.entries.len() > 0 {
            lemma_no_gap(r.entries, r.entries.len() - 1);
            let last = r.entries.len() - 1;
            assert(r.entries[last].offset == r.entries[0].offset + last);
        }
    }
}

/// Entries without a gap have contiguous offsets.
pub proof fn lemma_no_gap(entries: Seq<LogEntryView>, n: int)
    requires
        first_gap(entries, n) is None,
        0 <= n < entries.len(),
    ensures
        forall|k: int| 0 <= k <= n ==> #[trigger] entries[k].offset == entries[0].offset + k,
    decreases n,
{
    if n > 0 {
        lemma_no_gap(entries, n - 1);
    }
}

impl FetchPlan {
    /// The node's state before callbacks run.
    pub open spec fn state(self) -> NodeStateView {
        match self {
            FetchPlan::Reject { state, message } => state,
            FetchPlan::Transfer { state, leader_id, snapshot_id, persist } => state,
            FetchPlan::Truncate { state, point, persist } => state,
            FetchPlan::Append { state, old_hw, new_hw, persist } => state,
        }
    }
}

/// Committing up to one watermark and then up to a higher one hands the
/// application the same entries, in the same order, as committing up to the
/// higher one at once: none is skipped and none is repeated.
pub proof fn law_commit_ranges_compose(log: Seq<LogEntryView>, a: u64, b: u64, c: u64)
    requires
        crate::node_state::sorted_by_offset(log),
        a <= b <= c,
    ensures
        entries_between(log, a, b) + entries_between(log, b, c) == entries_between(log, a, c),
    decreases log.len(),
{
    reveal(Seq::filter);
    if log.len() == 0 {
        assert(entries_between(log, a, b) + entries_between(log, b, c) =~= entries_between(
            log,
            a,
            c,
        ));
    } else {
        let rest = log.drop_last();
        law_commit_ranges_compose(rest, a, b, c);
        let last = log.last();
        if a <= last.offset < b {
            lemma_none_from(rest, b, c, last.offset);
            assert(entries_between(log, a, b) + entries_between(log, b, c)
                =~= entries_between(log, a, c));
        } else {
            assert(entries_between(log, a, b) + entries_between(log, b, c)
                =~= entries_between(log, a, c));
        }
    }
}

proof fn lemma_none_from(log: Seq<LogEntryView>, b: u64, c: u64, bound: u64)
    requires
        forall|i: int| 0 <= i < log.len() ==> (#[trigger] log[i]).offset < bound,
        bound < b,
    ensures
        entries_between(log, b, c) == Seq::<LogEntryView>::empty(),
    decreases log.len(),
{
    reveal(Seq::filter);
    if log.len() > 0 {
        lemma_none_from(log.drop_last(), b, c, bound);
    }
}

} // verus!
