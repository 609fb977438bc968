//! The public view of a node's protocol state.
use vstd::prelude::*;

use crate::types::{NodeId, Term};
use crate::voter::{voter_views, VoterInfo, VoterView};

verus! {

/// Role in the Raft protocol.
#[derive(Debug, Clone, Copy, PartialEq, Eq, Structural)]
pub enum Role {
    /// Initial state before bootstrap or recovery completes.
    Unattached,
    Follower,
    Candidate,
    Leader,
}

impl Role {
    pub open spec fn spec_name(self) -> Seq<char> {
        match self {
            Role::Unattached => "Unattached"@,
            Role::Follower => "Follower"@,
            Role::Candidate => "Candidate"@,
            Role::Leader => "Leader"@,
        }
    }

    /// The name of the role, as messages show it.
    pub fn name(&self) -> (s: &'static str)
        ensures
            s@ == self.spec_name(),
    {
        match self {
            Role::Unattached => "Unattached",
            Role::Follower => "Follower",
            Role::Candidate => "Candidate",
            Role::Leader => "Leader",
        }
    }
}

/// Public projected subset of internal `NodeState`.
///
/// Contains only protocol metadata fields; internal-only fields are not
/// exposed.
#[derive(Debug, PartialEq, Eq)]
pub struct ConsensusState {
    pub current_term: Term,
    pub role: Role,
    pub leader_id: Option<NodeId>,
    /// Exclusive upper bound: entry at offset O is committed when O < HW.
    pub high_watermark: u64,
    pub log_end_offset: u64,
    /// Committed voter set.
    pub voter_set: Vec<VoterInfo>,
    pub node_id: NodeId,
}

#[verifier::ext_equal]
pub struct ConsensusStateView {
    pub current_term: Term,
    pub role: Role,
    pub leader_id: Option<NodeId>,
    pub high_watermark: u64,
    pub log_end_offset: u64,
    pub voter_set: Seq<VoterView>,
    pub node_id: NodeId,
}

impl View for ConsensusState {
    type V = ConsensusStateView;

    open spec fn view(&self) -> ConsensusStateView {
        ConsensusStateView {
            current_term: self.current_term,
            role: self.role,
            leader_id: self.leader_id,
            high_watermark: self.high_watermark,
            log_end_offset: self.log_end_offset,
            voter_set: voter_views(self.voter_set@),
            node_id: self.node_id,
        }
    }
}

} // verus!
