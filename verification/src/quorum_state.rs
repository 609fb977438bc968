//! The part of a node's state that must survive a crash.
use vstd::prelude::*;

use crate::types::{ClusterId, NodeId, Term};

verus! {

/// Persisted voting state, written to the `quorum-state` file.
///
/// Separated from the log for bootstrapping and performance. A missing file
/// stands for term 0 and no vote.
#[derive(Debug, Clone, Copy, PartialEq, Eq, Structural)]
pub struct QuorumState {
    pub current_term: Term,
    pub voted_for: Option<NodeId>,
    pub leader_id: Option<NodeId>,
    pub leader_epoch: Term,
    pub cluster_id: ClusterId,
}

impl Default for QuorumState {
    fn default() -> (r: Self)
        ensures
            r == (QuorumState {
                current_term: Term(0),
                voted_for: None,
                leader_id: None,
                leader_epoch: Term(0),
                cluster_id: ClusterId(0),
            }),
    {
        QuorumState {
            current_term: Term(0),
            voted_for: None,
            leader_id: None,
            leader_epoch: Term(0),
            cluster_id: ClusterId(0),
        }
    }
}

} // verus!
