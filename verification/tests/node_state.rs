use xraft::consensus_state::Role;
use xraft::log_entry::LogEntry;
use xraft::node_state::NodeState;
use xraft::types::{ClusterId, NodeId, Offset, Term};
use xraft::voter::VoterInfo;

fn leader_of(voters: u64) -> NodeState {
    let mut state = NodeState::new(NodeId(1), ClusterId(5));
    state.voter_set = (1..=voters).map(|v| VoterInfo::new(v, "h:1")).collect();
    state.current_term = Term(2);
    state.become_leader(1_000, 200);
    state
}

fn entries(from: u64, to: u64, term: u64) -> Vec<LogEntry> {
    (from..to)
        .map(|o| LogEntry::command(Offset(o), Term(term), vec![o as u8]))
        .collect()
}

#[test]
fn a_fresh_node_is_unattached() {
    let state = NodeState::new_unattached(NodeId(9), 40);
    assert_eq!(state.role, Role::Unattached);
    assert_eq!(state.current_term, Term(0));
    assert_eq!(state.election_deadline, 40);
    assert!(state.cluster_id.is_nil());
    assert!(!state.is_voter());
    let public = state.project();
    assert_eq!(public.node_id, NodeId(9));
    assert_eq!(public.role, Role::Unattached);
    assert_eq!(public.log_end_offset, 0);
}

#[test]
fn majorities_are_more_than_half() {
    for (voters, majority) in [(1, 1), (2, 2), (3, 2), (4, 3), (5, 3)] {
        let state = leader_of(voters);
        assert_eq!(state.voter_count(), voters as usize);
        assert_eq!(state.majority(), majority);
    }
}

#[test]
fn a_quorum_needs_recent_fetches_of_a_majority() {
    let mut state = leader_of(3);
    assert_eq!(state.check_quorum_deadline, 1_200);
    // Only this node is active.
    assert!(!state.check_quorum(1_200, 200));
    state.record_fetch(NodeId(2), 7, 1_000);
    assert!(state.check_quorum(1_200, 200));
    assert!(!state.check_quorum(1_201, 200));
    // A node that is no voter does not count.
    state.record_fetch(NodeId(8), 7, 1_201);
    assert!(!state.check_quorum(1_201, 200));
    assert!(!state.follower_state[&8].is_voter);
    assert_eq!(state.follower_state[&2].fetch_offset, 7);
    // A sole voter is its own quorum.
    assert!(leader_of(1).check_quorum(9_999, 1));
}

#[test]
fn appending_and_truncating_keep_the_end_of_the_log() {
    let mut state = leader_of(3);
    state.append_entries(&entries(0, 3, 1));
    state.append_entries(&entries(3, 5, 2));
    assert_eq!(state.log_end_offset, 5);
    assert_eq!(state.last_log_term(), Term(2));

    state.truncate_suffix(3);
    assert_eq!(state.log_end_offset, 3);
    assert_eq!(state.last_log_term(), Term(1));
    assert_eq!(state.log.len(), 3);

    state.truncate_suffix(0);
    assert_eq!(state.last_log_term(), Term(0));
    assert!(state.log.is_empty());

    state.append_entries(&Vec::new());
    assert_eq!(state.log_end_offset, 0);
}

#[test]
fn ranges_are_half_open() {
    let mut state = leader_of(3);
    state.append_entries(&entries(0, 5, 1));
    let offsets = |from: u64, to: u64| -> Vec<u64> {
        state.entries_in_range(from, to).iter().map(|e| e.offset).collect()
    };
    assert_eq!(offsets(1, 4), vec![1, 2, 3]);
    assert_eq!(offsets(4, 99), vec![4]);
    assert!(offsets(3, 3).is_empty());
}

#[test]
fn roles_change_with_their_bookkeeping() {
    let mut state = leader_of(3);
    state.record_fetch(NodeId(2), 0, 1_000);
    state.become_follower(Term(5), Some(NodeId(3)), 2_000);
    assert_eq!(state.role, Role::Follower);
    assert_eq!(state.leader_id, Some(NodeId(3)));
    assert!(state.follower_state.is_empty());
    assert_eq!(state.election_deadline, 2_000);

    state.become_candidate(3_000);
    assert_eq!(state.current_term, Term(6));
    assert_eq!(state.voted_for, Some(NodeId(1)));
    assert_eq!(state.leader_id, None);
    assert_eq!(state.votes_received.len(), 1);

    state.become_leader(3_100, 150);
    assert_eq!(state.leader_id, Some(NodeId(1)));
    assert_eq!(state.check_quorum_deadline, 3_250);
    assert_eq!(state.check_quorum_interval, 150);
}
