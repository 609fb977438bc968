use std::collections::HashSet;

use xraft::membership::{MembershipError, MembershipState, NodeId, VotersRecord};

fn voters(ids: &[u64]) -> HashSet<NodeId> {
    ids.iter().copied().collect()
}

fn initial_state() -> MembershipState {
    MembershipState::new(VotersRecord::new(voters(&[1, 2, 3]), 0))
}

#[test]
fn propose_and_commit_change() {
    let mut state = initial_state();
    state.propose_change(voters(&[1, 2, 3, 4]), 5).unwrap();
    assert!(state.has_pending_change());

    let committed = state.commit_change(5).unwrap();
    assert_eq!(committed.voters, voters(&[1, 2, 3, 4]));
    assert!(!state.has_pending_change());
}

#[test]
fn single_change_invariant_rejects_second_proposal() {
    let mut state = initial_state();
    state.propose_change(voters(&[1, 2, 3, 4]), 5).unwrap();

    let err = state.propose_change(voters(&[1, 2]), 6).unwrap_err();
    assert_eq!(err, MembershipError::ChangeAlreadyPending { pending_offset: 5 });
}

#[test]
fn clear_pending_if_truncated_clears_at_boundary() {
    let mut state = initial_state();
    state.propose_change(voters(&[1, 2, 3, 4]), 10).unwrap();
    assert!(state.has_pending_change());

    // Truncation starts exactly at the pending offset - must clear.
    state.clear_pending_if_truncated(10);
    assert!(!state.has_pending_change());
}

#[test]
fn clear_pending_if_truncated_clears_beyond() {
    let mut state = initial_state();
    state.propose_change(voters(&[1, 2, 3, 4]), 10).unwrap();

    // Truncation starts before the pending offset - must clear.
    state.clear_pending_if_truncated(8);
    assert!(!state.has_pending_change());
}

#[test]
fn clear_pending_if_truncated_preserves_when_before() {
    let mut state = initial_state();
    state.propose_change(voters(&[1, 2, 3, 4]), 10).unwrap();

    // Truncation starts after the pending offset - do not clear.
    state.clear_pending_if_truncated(11);
    assert!(state.has_pending_change());
}

#[test]
fn clear_pending_if_truncated_noop_when_no_pending() {
    let mut state = initial_state();
    // Should not panic.
    state.clear_pending_if_truncated(5);
    assert!(!state.has_pending_change());
}

#[test]
fn truncation_unblocks_new_proposal() {
    let mut state = initial_state();
    state.propose_change(voters(&[1, 2, 3, 4]), 10).unwrap();

    // Simulate leader truncation removing the uncommitted entry.
    state.clear_pending_if_truncated(10);

    // A new proposal should now succeed.
    state.propose_change(voters(&[1, 2, 5]), 12).unwrap();
    assert!(state.has_pending_change());
}

#[test]
fn apply_snapshot_resets_pending() {
    let mut state = initial_state();
    state.propose_change(voters(&[1, 2, 3, 4]), 5).unwrap();

    state.apply_snapshot(VotersRecord::new(voters(&[1, 2, 3]), 20));
    assert!(!state.has_pending_change());
    assert_eq!(state.committed_voters().offset, 20);
}

#[test]
fn effective_voters_reflects_pending() {
    let mut state = initial_state();
    assert_eq!(state.effective_voters().voters, voters(&[1, 2, 3]));

    state.propose_change(voters(&[1, 2, 3, 4]), 5).unwrap();
    assert_eq!(state.effective_voters().voters, voters(&[1, 2, 3, 4]));
}

#[test]
fn quorum_size() {
    let record = VotersRecord::new(voters(&[1, 2, 3]), 0);
    assert_eq!(record.quorum_size(), 2);

    let record = VotersRecord::new(voters(&[1, 2, 3, 4, 5]), 0);
    assert_eq!(record.quorum_size(), 3);
}

#[test]
fn commit_refuses_a_missing_or_different_change() {
    let mut state = initial_state();
    assert_eq!(state.commit_change(5).unwrap_err(), MembershipError::NoPendingChange);

    state.propose_change(voters(&[1, 2]), 5).unwrap();
    assert_eq!(
        state.commit_change(6).unwrap_err(),
        MembershipError::OffsetMismatch { expected: 5, actual: 6 }
    );
    assert!(state.has_pending_change());
    assert_eq!(state.committed_voters().voters, voters(&[1, 2, 3]));
}

#[test]
fn membership_errors_describe_themselves() {
    assert_eq!(
        MembershipError::ChangeAlreadyPending { pending_offset: 12 }.message(),
        "membership change already pending at offset 12"
    );
    assert_eq!(
        MembershipError::NoPendingChange.message(),
        "no pending membership change to commit"
    );
    assert_eq!(
        MembershipError::OffsetMismatch { expected: 1, actual: 2 }.message(),
        "offset mismatch: expected 1, got 2"
    );
}

#[test]
fn the_pending_change_is_described_by_its_offset() {
    let mut state = initial_state();
    assert_eq!(state.pending_text(), "None");
    state.propose_change(voters(&[1]), 17).unwrap();
    assert_eq!(state.pending_text(), "Some(offset=17)");
    state.clear_pending();
    assert!(!state.has_pending_change());
}

#[test]
fn a_restored_state_holds_the_voters_of_the_snapshot() {
    let state = MembershipState::restore_from_snapshot(VotersRecord::new(voters(&[4, 5]), 9));
    assert_eq!(state.effective_voters().voters, voters(&[4, 5]));
    assert_eq!(state.committed_voters().offset, 9);
    assert!(state.committed_voters().contains(4));
    assert!(!state.committed_voters().contains(1));
    assert!(!state.has_pending_change());
}

#[test]
fn truncating_a_proposal_restores_the_committed_voters() {
    let mut state = initial_state();
    state.propose_change(voters(&[7]), 30).unwrap();
    assert_eq!(state.effective_voters().voters, voters(&[7]));
    state.clear_pending_if_truncated(30);
    assert_eq!(state.effective_voters().voters, voters(&[1, 2, 3]));
}
