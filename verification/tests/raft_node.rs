use bytes::Bytes;

use xraft::app_record::{AppRecord, AppSnapshot};
use xraft::config::RaftConfig;
use xraft::consensus_state::Role;
use xraft::error::{IoFault, IoFaultKind, XraftError};
use xraft::listener::Listener;
use xraft::log_entry::{EntryType, LogEntry};
use xraft::quorum_state::QuorumState;
use xraft::raft_node::{
    find_latest_voters, has_existing_data, has_voters_record, last_log_info,
    validate_bootstrap_config, RaftNode, RpcStep, StoredData, VoteRequestStep, VoteResponseStep,
};
use xraft::rpc::{RpcEnvelope, RpcPayload, VoteRequest, VoteResponse};
use xraft::snapshot::{Snapshot, SnapshotMetadata, SnapshotReader};
use xraft::traits::StateMachine;
use xraft::types::{ClusterId, NodeId, Offset, Term};
use xraft::voter::{VoterInfo, VotersRecord};

const CLUSTER: ClusterId = ClusterId(31);

struct Machine {
    restored: Option<Vec<u8>>,
    refuse: Option<fn() -> XraftError>,
}

impl StateMachine for Machine {
    fn apply(&mut self, _offset: u64, _record: &AppRecord) -> Result<(), XraftError> {
        Ok(())
    }

    fn snapshot(&self) -> Result<AppSnapshot, XraftError> {
        Ok(AppSnapshot::new(Vec::new()))
    }

    fn restore(&mut self, snapshot: AppSnapshot) -> Result<(), XraftError> {
        if let Some(error) = self.refuse {
            return Err(error());
        }
        self.restored = Some(snapshot.data);
        Ok(())
    }
}

struct Leaders(Vec<(NodeId, Term)>);

impl Listener for Leaders {
    fn handle_commit(&mut self, _batch: &[(u64, AppRecord)]) {}

    fn handle_load_snapshot(&mut self, _reader: SnapshotReader) {}

    fn handle_leader_change(&mut self, leader_id: NodeId, term: Term) {
        self.0.push((leader_id, term));
    }

    fn begin_shutdown(&mut self) {}
}

type Node = RaftNode<Machine, Leaders>;

fn start(stored: Option<StoredData>, refuse: Option<fn() -> XraftError>) -> Result<Node, XraftError> {
    RaftNode::new(
        RaftConfig::default(),
        NodeId(1),
        stored,
        Machine { restored: None, refuse },
        Leaders(Vec::new()),
        1_000,
        200,
    )
}

fn voters(ids: &[u64]) -> Vec<VoterInfo> {
    ids.iter().map(|id| VoterInfo::new(*id, "h:1")).collect()
}

fn bootstrapped(ids: &[u64]) -> Node {
    let mut node = start(None, None).unwrap();
    node.bootstrap(CLUSTER, voters(ids), false, 1_000, 200).unwrap();
    node
}

fn candidate(ids: &[u64]) -> Node {
    let mut node = bootstrapped(ids);
    node.handle_election_timeout().unwrap();
    node
}

fn ask(term: u64, candidate: u64, offset: u64, log_term: u64) -> VoteRequest {
    VoteRequest {
        term: Term(term),
        candidate_id: NodeId(candidate),
        last_log_offset: Offset(offset),
        last_log_term: Term(log_term),
        is_pre_vote: false,
    }
}

fn grant(term: u64) -> VoteResponse {
    VoteResponse { term: Term(term), vote_granted: true, is_pre_vote: false }
}

fn quorum_state(term: u64) -> QuorumState {
    QuorumState {
        current_term: Term(term),
        voted_for: Some(NodeId(2)),
        leader_id: Some(NodeId(3)),
        leader_epoch: Term(term),
        cluster_id: CLUSTER,
    }
}

fn voters_entry(offset: u64, ids: &[u64]) -> LogEntry {
    let record = VotersRecord { version: 1, voters: voters(ids) };
    LogEntry::voters_record(Offset(offset), Term(1), &record)
}

fn snapshot() -> Snapshot {
    Snapshot {
        metadata: SnapshotMetadata {
            last_included_offset: 9,
            last_included_term: 2,
            voters: voters(&[1, 5]),
            leader_epoch: 2,
        },
        app_snapshot: AppSnapshot::new(vec![7, 8]),
    }
}

#[test]
fn bootstrap_forms_a_cluster_once() {
    let mut node = start(None, None).unwrap();
    assert!(!node.is_bootstrapped());
    assert_eq!(node.read().role, Role::Unattached);
    assert_eq!(node.poll(), None);
    assert!(!node.tick(u64::MAX));

    node.bootstrap(CLUSTER, voters(&[1, 2, 3]), false, 2_000, 150).unwrap();
    assert!(node.is_bootstrapped());
    assert_eq!(node.cluster_id(), CLUSTER);
    assert_eq!(node.node_id(), NodeId(1));
    assert_eq!(node.voter_set().len(), 3);
    assert_eq!(node.election_deadline(), 2_150);
    assert_eq!(node.poll(), Some(2_150));
    assert!(!node.tick(2_149));
    assert!(node.tick(2_150));
    assert_eq!(node.read().role, Role::Follower);
    assert_eq!(node.read().current_term, Term(0));

    assert_eq!(
        node.bootstrap(CLUSTER, voters(&[1]), false, 2_000, 150).unwrap_err(),
        XraftError::AlreadyBootstrapped {
            reason: String::from("node has already been bootstrapped or recovered")
        }
    );
}

#[test]
fn bootstrap_refuses_bad_arguments() {
    let refused = |cluster: ClusterId, ids: &[u64]| {
        let mut node = start(None, None).unwrap();
        let error = node.bootstrap(cluster, voters(ids), false, 0, 1).unwrap_err();
        assert!(!node.is_bootstrapped());
        error
    };
    let invalid = |reason: &str| XraftError::InvalidBootstrapConfig {
        reason: String::from(reason),
    };
    assert_eq!(refused(ClusterId(0), &[1]), invalid("cluster_id must not be nil"));
    assert_eq!(refused(CLUSTER, &[]), invalid("initial_voters must not be empty"));
    assert_eq!(
        refused(CLUSTER, &[1, 2, 4, 2]),
        invalid("duplicate node_id NodeId(2) in initial_voters")
    );
    assert_eq!(
        refused(CLUSTER, &[2, 3]),
        invalid("this node (NodeId(1)) must be included in initial_voters")
    );
    assert!(validate_bootstrap_config(NodeId(1), &CLUSTER, &voters(&[2, 1])).is_ok());
}

#[test]
fn bootstrap_refuses_existing_state() {
    let mut node = start(None, None).unwrap();
    assert_eq!(
        node.bootstrap(CLUSTER, voters(&[1]), true, 0, 1).unwrap_err(),
        XraftError::AlreadyBootstrapped {
            reason: String::from("existing data detected (log, quorum-state, or snapshot)")
        }
    );
    node.state.role = Role::Candidate;
    assert_eq!(
        node.check_bootstrap_allowed().unwrap_err(),
        XraftError::AlreadyBootstrapped {
            reason: String::from("node is not in Unattached state")
        }
    );
}

#[test]
fn a_bad_configuration_is_refused() {
    let config = RaftConfig { fetch_interval_ms: 900, ..RaftConfig::default() };
    let result: Result<Node, XraftError> = RaftNode::new(
        config,
        NodeId(1),
        None,
        Machine { restored: None, refuse: None },
        Leaders(Vec::new()),
        0,
        1,
    );
    assert!(matches!(
        result.err(),
        Some(XraftError::InvalidConfig { reason })
            if reason == "fetch_interval_ms (900) must be < election_timeout_min_ms (150)"
    ));
}

#[test]
fn any_store_counts_as_existing_data() {
    assert!(!has_existing_data(0, 0, false, false));
    assert!(has_existing_data(1, 0, false, false));
    assert!(has_existing_data(0, 1, false, false));
    assert!(has_existing_data(0, 0, true, false));
    assert!(has_existing_data(0, 0, false, true));
}

#[test]
fn recovery_restores_the_vote_and_finds_the_voters_in_the_log() {
    let node = start(
        Some(StoredData {
            log_start_offset: 2,
            log_end_offset: 6,
            quorum_state: Some(quorum_state(4)),
            snapshot: None,
            entries: vec![
                voters_entry(2, &[1, 2]),
                voters_entry(3, &[1, 2, 3]),
                LogEntry::leader_change(4, Term(2)),
                LogEntry {
                    offset: 5,
                    term: Term(2),
                    entry_type: EntryType::VotersRecord,
                    payload: Bytes::from(vec![1]),
                },
            ],
        }),
        None,
    )
    .unwrap();
    assert!(node.is_bootstrapped());
    assert_eq!(node.state.role, Role::Follower);
    assert_eq!(node.state.current_term, Term(4));
    assert_eq!(node.state.voted_for, Some(NodeId(2)));
    assert_eq!(node.state.leader_id, Some(NodeId(3)));
    assert_eq!(node.cluster_id(), CLUSTER);
    assert_eq!(node.state.log_start_offset, 2);
    assert_eq!(node.state.log_end_offset, 6);
    assert_eq!(node.election_deadline(), 1_200);
    // The record that does not parse is passed over.
    assert_eq!(*node.voter_set(), voters(&[1, 2, 3]));
}

#[test]
fn recovery_takes_boundaries_and_voters_from_the_snapshot() {
    let node = start(
        Some(StoredData {
            log_start_offset: 0,
            log_end_offset: 4,
            quorum_state: Some(quorum_state(4)),
            snapshot: Some(snapshot()),
            entries: vec![voters_entry(0, &[8])],
        }),
        None,
    )
    .unwrap();
    assert_eq!(*node.voter_set(), voters(&[1, 5]));
    assert_eq!(node.state.log_start_offset, 10);
    assert_eq!(node.state.high_watermark, 10);
    assert_eq!(node.state.log_end_offset, 10);
    assert_eq!(node.state_machine.restored, Some(vec![7, 8]));
}

#[test]
fn a_log_without_a_quorum_state_is_not_searched() {
    let node = start(
        Some(StoredData {
            log_start_offset: 0,
            log_end_offset: 1,
            quorum_state: None,
            snapshot: None,
            entries: vec![voters_entry(0, &[1, 2])],
        }),
        None,
    )
    .unwrap();
    assert!(node.voter_set().is_empty());
    assert!(node.is_bootstrapped());
    assert_eq!(node.state.role, Role::Follower);
}

#[test]
fn a_snapshot_that_needs_recovery_leaves_the_node_unattached() {
    let stored = || {
        Some(StoredData {
            log_start_offset: 0,
            log_end_offset: 0,
            quorum_state: None,
            snapshot: Some(snapshot()),
            entries: vec![],
        })
    };
    let node = start(stored(), Some(|| XraftError::RecoveryRequired)).unwrap();
    assert!(node.is_bootstrapped());
    assert_eq!(node.state.role, Role::Unattached);

    let failed = start(
        stored(),
        Some(|| {
            XraftError::StorageError(IoFault::new(IoFaultKind::InvalidData, String::from("x")))
        }),
    );
    assert!(matches!(failed.err(), Some(XraftError::StorageError(_))));
}

#[test]
fn the_last_entry_is_found_from_the_end_of_the_log() {
    assert_eq!(last_log_info(0, None), (0, Term(0)));
    assert_eq!(last_log_info(0, Some(Term(4))), (0, Term(0)));
    assert_eq!(last_log_info(5, Some(Term(4))), (4, Term(4)));
    assert_eq!(last_log_info(5, None), (4, Term(0)));
    let entries = vec![LogEntry::leader_change(0, Term(1)), voters_entry(1, &[1])];
    assert!(has_voters_record(&entries));
    assert!(!has_voters_record(&entries[..1].to_vec()));
    assert_eq!(find_latest_voters(&entries), Some(voters(&[1])));
    assert_eq!(find_latest_voters(&vec![]), None);
}

#[test]
fn an_election_timeout_makes_a_candidate() {
    let mut node = bootstrapped(&[1, 2, 3]);
    let saved = node.handle_election_timeout().unwrap();
    assert_eq!(saved.current_term, Term(1));
    assert_eq!(saved.voted_for, Some(NodeId(1)));
    assert_eq!(saved.cluster_id, CLUSTER);
    assert_eq!(node.state.role, Role::Candidate);
    assert!(!node.has_quorum());
    node.restart_election_timer(5_000, 180);
    assert_eq!(node.election_deadline(), 5_180);

    let sent = node.broadcast_vote_requests(4, Term(0));
    let targets: Vec<NodeId> = sent.iter().map(|(to, _)| *to).collect();
    assert_eq!(targets, vec![NodeId(2), NodeId(3)]);
    for (_, envelope) in &sent {
        assert_eq!(envelope.source, NodeId(1));
        assert_eq!(envelope.cluster_id, CLUSTER);
        assert!(matches!(
            &envelope.payload,
            RpcPayload::VoteRequest(r) if *r == ask(1, 1, 4, 0)
        ));
    }
}

#[test]
fn an_unattached_node_cannot_start_an_election() {
    let mut node = start(None, None).unwrap();
    assert_eq!(
        node.handle_election_timeout().unwrap_err(),
        XraftError::InvalidElectionState {
            reason: String::from("cannot start election from role Unattached")
        }
    );
}

#[test]
fn a_sole_voter_has_its_quorum() {
    let node = candidate(&[1]);
    assert!(node.has_quorum());
}

#[test]
fn a_vote_request_adopts_the_term_and_then_decides() {
    let mut node = bootstrapped(&[1, 2, 3]);
    // A stranger is turned down, whatever its term.
    match node.handle_vote_request(ask(9, 8, 0, 0), 3_000, 100) {
        VoteRequestStep::Reply(r) => assert!(!r.vote_granted),
        other => panic!("unexpected {other:?}"),
    }
    assert_eq!(node.state.current_term, Term(0));

    match node.handle_vote_request(ask(2, 2, 0, 0), 3_000, 100) {
        VoteRequestStep::Persist(qs) => {
            assert_eq!(qs.current_term, Term(2));
            assert_eq!(qs.voted_for, None);
        }
        other => panic!("unexpected {other:?}"),
    }
    assert_eq!(node.election_deadline(), 3_100);

    let decision = node.decide_vote(ask(2, 2, 0, 0), 0, Term(0));
    assert!(decision.response.vote_granted);
    assert_eq!(decision.response.term, Term(2));
    assert_eq!(decision.persist.unwrap().voted_for, Some(NodeId(2)));

    // The same term goes on to the decision, and only one candidate is granted.
    assert!(matches!(
        node.handle_vote_request(ask(2, 3, 0, 0), 3_000, 100),
        VoteRequestStep::Decide
    ));
    let decision = node.decide_vote(ask(2, 3, 0, 0), 0, Term(0));
    assert!(!decision.response.vote_granted);
    assert!(decision.persist.is_none());
    assert_eq!(node.state.voted_for, Some(NodeId(2)));

    // Stale terms and shorter logs are refused.
    assert!(!node.decide_vote(ask(1, 2, 9, 9), 0, Term(0)).response.vote_granted);
    assert!(!node.decide_vote(ask(2, 2, 3, 1), 4, Term(1)).response.vote_granted);
    assert!(node.decide_vote(ask(2, 2, 0, 2), 4, Term(1)).response.vote_granted);
}

#[test]
fn a_pre_vote_is_answered_without_a_vote() {
    let mut node = bootstrapped(&[1, 2]);
    let mut request = ask(0, 2, 0, 0);
    request.is_pre_vote = true;
    let decision = node.decide_vote(request, 0, Term(0));
    assert!(decision.response.vote_granted && decision.response.is_pre_vote);
    assert!(decision.persist.is_none());
    assert_eq!(node.state.voted_for, None);
}

#[test]
fn votes_of_voters_are_counted() {
    let mut node = candidate(&[1, 2, 3, 4, 5]);
    assert_eq!(node.handle_vote_response(NodeId(2), grant(1), 0, 1), VoteResponseStep::Done);
    assert_eq!(node.handle_vote_response(NodeId(9), grant(1), 0, 1), VoteResponseStep::Done);
    assert_eq!(node.handle_vote_response(NodeId(2), grant(1), 0, 1), VoteResponseStep::Done);
    assert_eq!(node.handle_vote_response(NodeId(3), grant(0), 0, 1), VoteResponseStep::Done);
    assert_eq!(node.handle_vote_response(NodeId(3), grant(1), 0, 1), VoteResponseStep::Won);
    assert_eq!(node.state.votes_received.len(), 3);

    match node.handle_vote_response(NodeId(4), grant(6), 50, 7) {
        VoteResponseStep::Persist(qs) => assert_eq!(qs.current_term, Term(6)),
        other => panic!("unexpected {other:?}"),
    }
    assert_eq!(node.state.role, Role::Follower);
    assert_eq!(node.election_deadline(), 57);
}

#[test]
fn a_new_leader_writes_the_voters_once() {
    let mut node = candidate(&[1, 2, 3]);
    let (first, second) = node.leader_entries(4, false);
    assert_eq!(first, LogEntry::leader_change(4, Term(1)));
    let second = second.unwrap();
    assert_eq!(second.offset, 5);
    assert_eq!(second.entry_type, EntryType::VotersRecord);
    let record = second.decode_voters().unwrap();
    assert_eq!(record.version, 1);
    assert_eq!(record.voters, voters(&[1, 2, 3]));
    assert!(node.leader_entries(4, true).1.is_none());
    assert_eq!(Node::rollback_offset(5), 4);
    assert_eq!(Node::rollback_offset(0), 0);

    node.become_leader(6);
    assert_eq!(node.read().role, Role::Leader);
    assert_eq!(node.read().leader_id, Some(NodeId(1)));
    assert_eq!(node.state.log_end_offset, 6);
    assert_eq!(node.state.high_watermark, 0);
    assert_eq!(node.listener.0, vec![(NodeId(1), Term(1))]);
}

#[test]
fn a_sole_leader_commits_at_once() {
    let mut node = candidate(&[1]);
    node.become_leader(2);
    assert_eq!(node.state.high_watermark, 2);
}

#[test]
fn messages_are_fenced_by_cluster_and_dispatched_by_kind() {
    let mut node = bootstrapped(&[1, 2, 3]);
    let mut envelope = RpcEnvelope {
        cluster_id: ClusterId(99),
        leader_epoch: Term(0),
        source: NodeId(2),
        payload: RpcPayload::VoteRequest(ask(1, 2, 0, 0)),
    };
    assert_eq!(node.handle_rpc(&envelope, 0, 1).unwrap_err(), XraftError::InvalidClusterId);
    envelope.cluster_id = ClusterId(0);
    assert_eq!(node.handle_rpc(&envelope, 0, 1).unwrap_err(), XraftError::InvalidClusterId);

    envelope.cluster_id = CLUSTER;
    assert!(matches!(
        node.handle_rpc(&envelope, 0, 1).unwrap(),
        RpcStep::VoteRequest(_, VoteRequestStep::Persist(_))
    ));
    envelope.payload = RpcPayload::VoteResponse(grant(0));
    assert_eq!(
        node.handle_rpc(&envelope, 0, 1).unwrap(),
        RpcStep::VoteResponse(VoteResponseStep::Done)
    );
    envelope.payload = RpcPayload::FetchRequest(xraft::rpc::FetchRequest {
        replica_id: NodeId(2),
        fetch_offset: 0,
        last_fetched_epoch: Term(0),
        max_bytes: 1,
    });
    assert_eq!(node.handle_rpc(&envelope, 0, 1).unwrap(), RpcStep::Ignored);

    let reply = node.vote_reply(grant(1));
    assert_eq!(reply.source, NodeId(1));
    assert_eq!(reply.cluster_id, CLUSTER);
    assert_eq!(reply.leader_epoch, Term(0));
}
