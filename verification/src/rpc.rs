//! Messages between nodes and from clients.
use bytes::Bytes;
use vstd::prelude::*;

use crate::codec::{bytes_clone, bytes_content};
use crate::log_entry::{clone_entries, entry_views, LogEntry, LogEntryView};
use crate::types::{ClusterId, NodeId, Offset, Term};

verus! {

/// Where a node can be reached.
pub type Endpoint = String;

/// RPC request to add a new voter to the cluster.
#[derive(Debug)]
pub struct AddVoterRequest {
    pub node_id: NodeId,
    pub endpoint: Endpoint,
}

/// RPC request to remove a voter from the cluster.
#[derive(Debug, Clone, Copy)]
pub struct RemoveVoterRequest {
    pub node_id: NodeId,
}

/// RPC request to update a voter's endpoint.
#[derive(Debug)]
pub struct UpdateVoterRequest {
    pub node_id: NodeId,
    pub new_endpoint: Endpoint,
}

/// RPC request to register a new observer (non-voting node).
/// Must be sent to the leader; non-leaders reject with `NotLeader`.
#[derive(Debug)]
pub struct RegisterObserverRequest {
    pub node_id: NodeId,
    pub endpoint: Endpoint,
}

/// RPC response to observer registration.
#[derive(Debug, Clone, Copy, PartialEq, Eq, Structural)]
pub struct RegisterObserverResponse {
    pub success: bool,
    pub leader_id: Option<NodeId>,
    pub error: Option<MembershipError>,
}

impl RegisterObserverResponse {
    pub fn success(leader_id: Option<NodeId>) -> (r: Self)
        ensures
            r == (RegisterObserverResponse { success: true, leader_id, error: None }),
    {
        RegisterObserverResponse { success: true, leader_id, error: None }
    }

    pub fn error(error: MembershipError, leader_id: Option<NodeId>) -> (r: Self)
        ensures
            r == (RegisterObserverResponse { success: false, leader_id, error: Some(error) }),
    {
        RegisterObserverResponse { success: false, leader_id, error: Some(error) }
    }
}

/// RPC request to deregister an observer (non-voting node).
/// Must be sent to the leader; non-leaders reject with `NotLeader`.
#[derive(Debug, Clone, Copy)]
pub struct DeregisterObserverRequest {
    pub node_id: NodeId,
}

/// RPC response to observer deregistration.
#[derive(Debug, Clone, Copy, PartialEq, Eq, Structural)]
pub struct DeregisterObserverResponse {
    pub success: bool,
    pub leader_id: Option<NodeId>,
    pub error: Option<MembershipError>,
}

impl DeregisterObserverResponse {
    pub fn success(leader_id: Option<NodeId>) -> (r: Self)
        ensures
            r == (DeregisterObserverResponse { success: true, leader_id, error: None }),
    {
        DeregisterObserverResponse { success: true, leader_id, error: None }
    }

    pub fn error(error: MembershipError, leader_id: Option<NodeId>) -> (r: Self)
        ensures
            r == (DeregisterObserverResponse { success: false, leader_id, error: Some(error) }),
    {
        DeregisterObserverResponse { success: false, leader_id, error: Some(error) }
    }
}

/// Request for a vote, or for a pre-vote that asks whether a vote would be
/// given.
#[derive(Debug, Clone, Copy, PartialEq, Eq, Structural)]
pub struct VoteRequest {
    pub term: Term,
    pub candidate_id: NodeId,
    pub last_log_offset: Offset,
    pub last_log_term: Term,
    pub is_pre_vote: bool,
}

/// Answer to a [`VoteRequest`].
#[derive(Debug, Clone, Copy, PartialEq, Eq, Structural)]
pub struct VoteResponse {
    pub term: Term,
    pub vote_granted: bool,
    pub is_pre_vote: bool,
}

/// Fetch RPC request sent by followers and observers to the leader.
#[derive(Debug, Clone, Copy, PartialEq, Eq, Structural)]
pub struct FetchRequest {
    /// Follower/observer sending the request.
    pub replica_id: NodeId,
    /// Next offset the follower wants to read (= follower's log_end_offset).
    pub fetch_offset: u64,
    /// Epoch of the follower's last log entry.
    pub last_fetched_epoch: Term,
    /// Maximum response size in bytes (0 = unlimited up to server default).
    pub max_bytes: u32,
}

/// Divergence indicator returned in FetchResponse when the follower's
/// log has diverged from the leader's.
#[derive(Debug, Clone, Copy, PartialEq, Eq, Structural)]
pub struct DivergingEpoch {
    /// The epoch where divergence was detected.
    pub epoch: Term,
    /// The offset the follower should truncate to.
    pub end_offset: u64,
}

/// Snapshot identifier returned in FetchResponse when the follower
/// needs a snapshot transfer (fetch_offset < log_start_offset).
#[derive(Debug, Clone, Copy, PartialEq, Eq, Structural)]
pub struct SnapshotId {
    /// Last offset included in the snapshot.
    pub end_offset: u64,
    /// Term of the last entry in the snapshot.
    pub epoch: Term,
}

/// Fetch RPC response from the leader to a follower/observer.
#[derive(Debug, PartialEq, Eq)]
pub struct FetchResponse {
    pub leader_id: NodeId,
    pub leader_epoch: Term,
    /// Exclusive upper bound: entries with offset < HW are committed.
    pub high_watermark: u64,
    /// Leader's log start (after compaction).
    pub log_start_offset: u64,
    /// Log entries starting at the requested fetch_offset.
    pub entries: Vec<LogEntry>,
    /// Set when log divergence is detected: the follower must truncate.
    pub diverging_epoch: Option<DivergingEpoch>,
    /// Set when fetch_offset < log_start_offset: the follower needs a snapshot.
    pub snapshot_id: Option<SnapshotId>,
}

#[verifier::ext_equal]
pub struct FetchResponseView {
    pub leader_id: NodeId,
    pub leader_epoch: Term,
    pub high_watermark: u64,
    pub log_start_offset: u64,
    pub entries: Seq<LogEntryView>,
    pub diverging_epoch: Option<DivergingEpoch>,
    pub snapshot_id: Option<SnapshotId>,
}

impl View for FetchResponse {
    type V = FetchResponseView;

    open spec fn view(&self) -> FetchResponseView {
        FetchResponseView {
            leader_id: self.leader_id,
            leader_epoch: self.leader_epoch,
            high_watermark: self.high_watermark,
            log_start_offset: self.log_start_offset,
            entries: entry_views(self.entries@),
            diverging_epoch: self.diverging_epoch,
            snapshot_id: self.snapshot_id,
        }
    }
}

impl Clone for FetchResponse {
    fn clone(&self) -> (r: Self)
        ensures
            r@ == self@,
    {
        FetchResponse {
            leader_id: self.leader_id,
            leader_epoch: self.leader_epoch,
            high_watermark: self.high_watermark,
            log_start_offset: self.log_start_offset,
            entries: clone_entries(&self.entries),
            diverging_epoch: self.diverging_epoch,
            snapshot_id: self.snapshot_id,
        }
    }
}

/// Request for a chunk of a snapshot.
#[derive(Debug, Clone, Copy, PartialEq, Eq, Structural)]
pub struct FetchSnapshotRequest {
    pub snapshot_id: SnapshotId,
    /// Byte position of the chunk.
    pub position: u64,
    /// Maximum chunk size in bytes.
    pub max_bytes: u32,
}

/// A chunk of a snapshot.
#[derive(Debug, PartialEq, Eq)]
pub struct FetchSnapshotResponse {
    pub snapshot_id: SnapshotId,
    /// Byte position of the chunk.
    pub position: u64,
    pub data: Bytes,
    pub is_last_chunk: bool,
}

#[verifier::ext_equal]
pub struct FetchSnapshotResponseView {
    pub snapshot_id: SnapshotId,
    pub position: u64,
    pub data: Seq<u8>,
    pub is_last_chunk: bool,
}

impl View for FetchSnapshotResponse {
    type V = FetchSnapshotResponseView;

    open spec fn view(&self) -> FetchSnapshotResponseView {
        FetchSnapshotResponseView {
            snapshot_id: self.snapshot_id,
            position: self.position,
            data: bytes_content(self.data),
            is_last_chunk: self.is_last_chunk,
        }
    }
}

impl Clone for FetchSnapshotResponse {
    fn clone(&self) -> (r: Self)
        ensures
            r@ == self@,
    {
        FetchSnapshotResponse {
            snapshot_id: self.snapshot_id,
            position: self.position,
            data: bytes_clone(&self.data),
            is_last_chunk: self.is_last_chunk,
        }
    }
}

/// What a message between nodes says.
#[derive(Debug, PartialEq, Eq)]
pub enum RpcPayload {
    VoteRequest(VoteRequest),
    VoteResponse(VoteResponse),
    FetchRequest(FetchRequest),
    FetchResponse(FetchResponse),
    FetchSnapshotRequest(FetchSnapshotRequest),
    FetchSnapshotResponse(FetchSnapshotResponse),
}

#[verifier::ext_equal]
pub enum RpcPayloadView {
    VoteRequest(VoteRequest),
    VoteResponse(VoteResponse),
    FetchRequest(FetchRequest),
    FetchResponse(FetchResponseView),
    FetchSnapshotRequest(FetchSnapshotRequest),
    FetchSnapshotResponse(FetchSnapshotResponseView),
}

impl View for RpcPayload {
    type V = RpcPayloadView;

    open spec fn view(&self) -> RpcPayloadView {
        match self {
            RpcPayload::VoteRequest(m) => RpcPayloadView::VoteRequest(*m),
            RpcPayload::VoteResponse(m) => RpcPayloadView::VoteResponse(*m),
            RpcPayload::FetchRequest(m) => RpcPayloadView::FetchRequest(*m),
            RpcPayload::FetchResponse(m) => RpcPayloadView::FetchResponse(m@),
            RpcPayload::FetchSnapshotRequest(m) => RpcPayloadView::FetchSnapshotRequest(*m),
            RpcPayload::FetchSnapshotResponse(m) => RpcPayloadView::FetchSnapshotResponse(m@),
        }
    }
}

impl Clone for RpcPayload {
    fn clone(&self) -> (r: Self)
        ensures
            r@ == self@,
    {
        match self {
            RpcPayload::VoteRequest(m) => RpcPayload::VoteRequest(*m),
            RpcPayload::VoteResponse(m) => RpcPayload::VoteResponse(*m),
            RpcPayload::FetchRequest(m) => RpcPayload::FetchRequest(*m),
            RpcPayload::FetchResponse(m) => RpcPayload::FetchResponse(m.clone()),
            RpcPayload::FetchSnapshotRequest(m) => RpcPayload::FetchSnapshotRequest(*m),
            RpcPayload::FetchSnapshotResponse(m) => RpcPayload::FetchSnapshotResponse(m.clone()),
        }
    }
}

/// A message between nodes with what every message carries.
#[derive(Debug, PartialEq, Eq)]
pub struct RpcEnvelope {
    pub cluster_id: ClusterId,
    pub leader_epoch: Term,
    pub source: NodeId,
    pub payload: RpcPayload,
}

#[verifier::ext_equal]
pub struct RpcEnvelopeView {
    pub cluster_id: ClusterId,
    pub leader_epoch: Term,
    pub source: NodeId,
    pub payload: RpcPayloadView,
}

impl View for RpcEnvelope {
    type V = RpcEnvelopeView;

    open spec fn view(&self) -> RpcEnvelopeView {
        RpcEnvelopeView {
            cluster_id: self.cluster_id,
            leader_epoch: self.leader_epoch,
            source: self.source,
            payload: self.payload@,
        }
    }
}

impl Clone for RpcEnvelope {
    fn clone(&self) -> (r: Self)
        ensures
            r@ == self@,
    {
        RpcEnvelope {
            cluster_id: self.cluster_id,
            leader_epoch: self.leader_epoch,
            source: self.source,
            payload: self.payload.clone(),
        }
    }
}

/// Response to any membership change RPC.
#[derive(Debug, Clone, Copy, PartialEq, Eq, Structural)]
pub struct MembershipChangeResponse {
    pub success: bool,
    /// If the recipient is not the leader, this field indicates the known
    /// leader so the client can redirect.
    pub leader_id: Option<NodeId>,
    pub error: Option<MembershipError>,
}

/// Error variants for membership change operations.
#[derive(Debug, Clone, Copy, PartialEq, Eq, Structural)]
pub enum MembershipError {
    /// This node is not the leader; `leader_id` hints at who is.
    NotLeader { leader_id: Option<NodeId> },
    /// An uncommitted VotersRecord already exists in the log.
    ChangeInProgress,
    /// The target node is already a voter.
    NodeAlreadyVoter,
    /// The target node is not known (not registered as an observer).
    NodeNotFound,
    /// The observer's fetch_offset has not reached within threshold of
    /// the leader's log end.
    NodeNotCaughtUp,
}

impl MembershipChangeResponse {
    pub fn success(leader_id: Option<NodeId>) -> (r: Self)
        ensures
            r == (MembershipChangeResponse { success: true, leader_id, error: None }),
    {
        MembershipChangeResponse { success: true, leader_id, error: None }
    }

    pub fn error(error: MembershipError, leader_id: Option<NodeId>) -> (r: Self)
        ensures
            r == (MembershipChangeResponse { success: false, leader_id, error: Some(error) }),
    {
        MembershipChangeResponse { success: false, leader_id, error: Some(error) }
    }

    /// Success, without a hint at the leader.
    pub fn ok() -> (r: Self)
        ensures
            r == (MembershipChangeResponse { success: true, leader_id: None, error: None }),
    {
        MembershipChangeResponse { success: true, leader_id: None, error: None }
    }

    /// Failure, without a hint at the leader.
    pub fn err(error: MembershipError) -> (r: Self)
        ensures
            r == (MembershipChangeResponse { success: false, leader_id: None, error: Some(error) }),
    {
        MembershipChangeResponse { success: false, leader_id: None, error: Some(error) }
    }
}

} // verus!
