//! What a leader knows of a follower.
use vstd::prelude::*;

use crate::types::NodeId;

verus! {

/// Tracks a follower's replication progress on the leader side.
#[derive(Debug, Clone, Copy, PartialEq, Eq, Structural)]
pub struct FollowerProgress {
    pub node_id: NodeId,
    pub fetch_offset: u64,
    /// When the last fetch arrived, in milliseconds.
    pub last_fetch_timestamp: u64,
    pub is_voter: bool,
}

} // verus!
