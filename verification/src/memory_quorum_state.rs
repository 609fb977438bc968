//! A quorum state that is kept in memory.
use vstd::prelude::*;

use crate::error::XraftError;
use crate::quorum_state::QuorumState;
use crate::types::{ClusterId, Term};

verus! {

/// Keeps the quorum state for tests and simulation.
#[derive(Debug)]
pub struct MemoryQuorumStateStore {
    state: QuorumState,
}

impl View for MemoryQuorumStateStore {
    type V = QuorumState;

    closed spec fn view(&self) -> QuorumState {
        self.state
    }
}

impl MemoryQuorumStateStore {
    /// A store that holds the state of a node that was never started.
    pub fn new() -> (r: Self)
        ensures
            r@ == (QuorumState {
                current_term: Term(0),
                voted_for: None,
                leader_id: None,
                leader_epoch: Term(0),
                cluster_id: ClusterId(0),
            }),
    {
        MemoryQuorumStateStore { state: QuorumState::default() }
    }

    pub fn with_state(state: QuorumState) -> (r: Self)
        ensures
            r@ == state,
    {
        MemoryQuorumStateStore { state }
    }

    /// The state that was saved last.
    pub fn load(&self) -> (r: Result<QuorumState, XraftError>)
        ensures
            r == Ok::<QuorumState, XraftError>(self@),
    {
        Ok(self.state)
    }

    pub fn save(&mut self, state: &QuorumState) -> (r: Result<(), XraftError>)
        ensures
            r is Ok,
            final(self)@ == *state,
    {
        self.state = *state;
        Ok(())
    }
}

} // verus!
