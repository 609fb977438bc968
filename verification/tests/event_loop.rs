use xraft::app_record::{AppRecord, AppSnapshot};
use xraft::config::RaftConfig;
use xraft::consensus_state::Role;
use xraft::error::XraftError;
use xraft::event_loop::{DueTimer, EventLoop};
use xraft::io_action::IoAction;
use xraft::listener::Listener;
use xraft::log_entry::LogEntry;
use xraft::node_state::NodeState;
use xraft::rpc::{
    FetchRequest, FetchResponse, RpcEnvelope, RpcPayload, VoteRequest, VoteResponse,
};
use xraft::snapshot::SnapshotReader;
use xraft::traits::StateMachine;
use xraft::types::{ClusterId, NodeId, Offset, Term};
use xraft::voter::VoterInfo;

const CLUSTER: ClusterId = ClusterId(12);
const NOW: u64 = 10_000;
const TIMEOUT: u64 = 250;
const INTERVAL: u64 = 170;

struct Nothing;

impl StateMachine for Nothing {
    fn apply(&mut self, _offset: u64, _record: &AppRecord) -> Result<(), XraftError> {
        Ok(())
    }

    fn snapshot(&self) -> Result<AppSnapshot, XraftError> {
        Ok(AppSnapshot::new(Vec::new()))
    }

    fn restore(&mut self, _snapshot: AppSnapshot) -> Result<(), XraftError> {
        Ok(())
    }
}

struct Heard {
    leaders: Vec<(NodeId, Term)>,
    shutdowns: u32,
}

impl Listener for Heard {
    fn handle_commit(&mut self, _batch: &[(u64, AppRecord)]) {}

    fn handle_load_snapshot(&mut self, _reader: SnapshotReader) {}

    fn handle_leader_change(&mut self, leader_id: NodeId, term: Term) {
        self.leaders.push((leader_id, term));
    }

    fn begin_shutdown(&mut self) {
        self.shutdowns += 1;
    }
}

fn event_loop(id: u64, voters: u64) -> EventLoop<Nothing, Heard> {
    let mut state = NodeState::new(NodeId(id), CLUSTER);
    state.role = Role::Follower;
    state.current_term = Term(2);
    state.election_deadline = NOW;
    state.voter_set = (1..=voters).map(|v| VoterInfo::new(v, "h:1")).collect();
    EventLoop::new(
        state,
        RaftConfig::default(),
        Nothing,
        Heard { leaders: Vec::new(), shutdowns: 0 },
    )
}

fn from(source: u64, payload: RpcPayload) -> RpcEnvelope {
    RpcEnvelope {
        cluster_id: CLUSTER,
        leader_epoch: Term(0),
        source: NodeId(source),
        payload,
    }
}

fn vote(term: u64, vote_granted: bool) -> RpcPayload {
    RpcPayload::VoteResponse(VoteResponse {
        term: Term(term),
        vote_granted,
        is_pre_vote: false,
    })
}

fn ask(term: u64, candidate: u64, is_pre_vote: bool) -> RpcPayload {
    RpcPayload::VoteRequest(VoteRequest {
        term: Term(term),
        candidate_id: NodeId(candidate),
        last_log_offset: Offset(50),
        last_log_term: Term(term),
        is_pre_vote,
    })
}

#[test]
fn timers_depend_on_the_role() {
    let mut node = event_loop(1, 3);
    assert_eq!(node.due(NOW - 1), None);
    assert_eq!(node.due(NOW), Some(DueTimer::Election));
    assert_eq!(node.next_deadline(), NOW);

    node.state.role = Role::Leader;
    node.state.check_quorum_deadline = NOW + 5;
    assert_eq!(node.due(NOW + 4), None);
    assert_eq!(node.due(NOW + 5), Some(DueTimer::CheckQuorum));
    assert_eq!(node.next_deadline(), NOW + 5);

    node.state.role = Role::Unattached;
    assert_eq!(node.due(u64::MAX), None);
}

#[test]
fn an_election_timeout_starts_an_election() {
    let mut node = event_loop(1, 3);
    let step = node.handle_election_timeout(NOW, TIMEOUT, INTERVAL).unwrap();
    assert_eq!(step.publish.role, Role::Candidate);
    assert_eq!(step.publish.current_term, Term(3));
    assert_eq!(node.state.election_deadline, NOW + TIMEOUT);
    assert_eq!(step.batch.actions.len(), 3);
    assert!(matches!(&step.batch.actions[0], IoAction::PersistQuorumState(_)));
    assert!(node.listener.leaders.is_empty());
}

#[test]
fn a_sole_voter_leads_at_once() {
    let mut node = event_loop(1, 1);
    let step = node.handle_election_timeout(NOW, TIMEOUT, INTERVAL).unwrap();
    assert_eq!(step.publish.role, Role::Leader);
    assert_eq!(node.state.check_quorum_interval, INTERVAL);
    assert_eq!(node.state.check_quorum_deadline, NOW + INTERVAL);
    assert_eq!(node.state.election_deadline, NOW + TIMEOUT);
    assert_eq!(node.listener.leaders, vec![(NodeId(1), Term(3))]);
    assert_eq!(step.batch.actions.len(), 3);
    assert!(matches!(
        &step.batch.actions[1],
        IoAction::PersistQuorumState(qs)
            if qs.leader_id == Some(NodeId(1)) && qs.leader_epoch == Term(3)
                && qs.voted_for == Some(NodeId(1))
    ));
    assert!(matches!(
        &step.batch.actions[2],
        IoAction::AppendLog(es) if *es == vec![LogEntry::leader_change(0, Term(3))]
    ));
}

#[test]
fn an_observer_only_waits_again() {
    let mut node = event_loop(9, 3);
    assert!(node.handle_election_timeout(NOW, TIMEOUT, INTERVAL).is_none());
    assert_eq!(node.state.role, Role::Follower);
    assert_eq!(node.state.current_term, Term(2));
    assert_eq!(node.state.election_deadline, NOW + TIMEOUT);
}

#[test]
fn a_candidate_wins_with_the_second_of_three_votes() {
    let mut node = event_loop(1, 3);
    node.handle_election_timeout(NOW, TIMEOUT, INTERVAL);

    // Votes of strangers and of other terms do not count.
    node.handle_rpc(from(8, vote(3, true)), NOW, TIMEOUT);
    node.handle_rpc(from(2, vote(2, true)), NOW, TIMEOUT);
    node.handle_rpc(from(2, vote(3, false)), NOW, TIMEOUT);
    assert_eq!(node.state.role, Role::Candidate);

    let step = node.handle_rpc(from(3, vote(3, true)), NOW, TIMEOUT).unwrap();
    assert_eq!(step.publish.role, Role::Leader);
    assert_eq!(step.batch.actions.len(), 2);
    assert_eq!(node.listener.leaders, vec![(NodeId(1), Term(3))]);
}

#[test]
fn a_leader_without_a_quorum_steps_down_and_keeps_its_vote() {
    let mut node = event_loop(1, 3);
    node.handle_election_timeout(NOW, TIMEOUT, INTERVAL);
    node.handle_rpc(from(2, vote(3, true)), NOW, TIMEOUT);
    assert_eq!(node.state.role, Role::Leader);

    // A fetch within the interval keeps it.
    let fetch = RpcPayload::FetchRequest(FetchRequest {
        replica_id: NodeId(2),
        fetch_offset: 1,
        last_fetched_epoch: Term(3),
        max_bytes: 100,
    });
    node.handle_rpc(from(2, fetch), NOW + 100, TIMEOUT);
    let step = node.handle_check_quorum(NOW + TIMEOUT, TIMEOUT).unwrap();
    assert!(step.batch.is_empty());
    assert_eq!(node.state.role, Role::Leader);
    assert_eq!(node.state.check_quorum_deadline, NOW + 2 * TIMEOUT);

    let step = node.handle_check_quorum(NOW + 2 * TIMEOUT, TIMEOUT).unwrap();
    assert_eq!(step.publish.role, Role::Follower);
    assert_eq!(step.publish.current_term, Term(3));
    assert_eq!(node.state.voted_for, Some(NodeId(1)));
    assert!(matches!(
        &step.batch.actions[0],
        IoAction::PersistQuorumState(qs)
            if qs.voted_for == Some(NodeId(1)) && qs.leader_id.is_none()
    ));

    // No second vote in the same term.
    let step = node.handle_rpc(from(2, ask(3, 2, false)), NOW + 600, TIMEOUT).unwrap();
    assert_eq!(node.state.voted_for, Some(NodeId(1)));
    assert!(matches!(
        &step.batch.actions[0],
        IoAction::SendRpc(NodeId(2), RpcEnvelope { payload: RpcPayload::VoteResponse(r), .. })
            if !r.vote_granted
    ));
}

#[test]
fn messages_of_other_clusters_are_dropped() {
    let mut node = event_loop(1, 3);
    let mut message = from(2, ask(9, 2, false));
    message.cluster_id = ClusterId(13);
    assert!(node.handle_rpc(message, NOW, TIMEOUT).is_none());
    assert_eq!(node.state.current_term, Term(2));
}

#[test]
fn a_pre_vote_never_raises_the_term() {
    let mut node = event_loop(1, 3);
    let step = node.handle_rpc(from(2, ask(9, 2, true)), NOW, TIMEOUT).unwrap();
    assert_eq!(node.state.current_term, Term(2));
    assert_eq!(node.state.voted_for, None);
    assert_eq!(step.batch.actions.len(), 1);
}

#[test]
fn a_fetch_response_of_a_later_leader_makes_the_node_step_down() {
    let mut node = event_loop(1, 3);
    node.handle_election_timeout(NOW, TIMEOUT, INTERVAL);
    let response = RpcPayload::FetchResponse(FetchResponse {
        leader_id: NodeId(2),
        leader_epoch: Term(7),
        high_watermark: 0,
        log_start_offset: 0,
        entries: vec![],
        diverging_epoch: None,
        snapshot_id: None,
    });
    let step = node.handle_rpc(from(2, response), NOW + 10, TIMEOUT).unwrap();
    assert_eq!(step.publish.role, Role::Follower);
    assert_eq!(step.publish.current_term, Term(7));
    assert!(matches!(
        &step.batch.actions[0],
        IoAction::PersistQuorumState(qs) if qs.current_term == Term(7) && qs.voted_for.is_none()
    ));
}

#[test]
fn shutdown_reaches_the_listener() {
    let mut node = event_loop(1, 3);
    node.handle_shutdown();
    assert_eq!(node.listener.shutdowns, 1);
}

#[test]
fn a_full_log_matters_only_to_a_winner() {
    let mut node = event_loop(1, 3);
    node.state.log_end_offset = u64::MAX;
    let step = node.handle_rpc(from(2, ask(3, 2, false)), NOW, 50).unwrap();
    assert_eq!(step.batch.actions.len(), 3);
    assert_eq!(node.state.current_term, Term(3));
    // A vote that does not win.
    let mut node = event_loop(1, 5);
    node.state.log_end_offset = u64::MAX;
    node.handle_election_timeout(NOW, 50, 60).unwrap();
    assert_eq!(node.state.role, Role::Candidate);
    node.handle_rpc(from(2, vote(3, true)), NOW, 50).unwrap();
    assert_eq!(node.state.votes_received.len(), 2);
}
