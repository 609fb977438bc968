use std::collections::{HashMap, HashSet, VecDeque};

use xraft::consensus_state::Role;
use xraft::pre_vote::{
    ElectionAction, ElectionActionBatch, ElectionDriver, ElectionEvent, ElectionPhase, NodeState,
};
use xraft::rpc::{VoteRequest, VoteResponse};
use xraft::types::{ClusterId, NodeId, Offset, Term};
use xraft::voter::VoterInfo;

fn cluster_id() -> ClusterId {
    ClusterId(0)
}

const ELECTION_TIMEOUT_MS: u64 = 150;

#[derive(Debug, Clone)]
enum Message {
    PreVoteReq { from: NodeId, to: NodeId, req: VoteRequest },
    PreVoteResp { from: NodeId, to: NodeId, resp: VoteResponse },
    RealVoteReq { from: NodeId, to: NodeId, req: VoteRequest },
    RealVoteResp { from: NodeId, to: NodeId, resp: VoteResponse },
}

/// A simulated cluster that uses `ElectionDriver::handle` as the sole
/// entry point for election logic - exactly as a real event loop would.
struct DriverSimCluster {
    states: HashMap<NodeId, NodeState>,
    messages: VecDeque<Message>,
    partitions: HashSet<(NodeId, NodeId)>,
    election_timeout_ms: u64,
    clock_ms: u64,
}

impl DriverSimCluster {
    fn new(node_ids: &[u64]) -> Self {
        let voters: Vec<VoterInfo> = node_ids
            .iter()
            .map(|&id| VoterInfo::new(id, &format!("n{id}")))
            .collect();

        let mut states = HashMap::new();
        for &id in node_ids {
            states.insert(
                NodeId(id),
                NodeState::new(NodeId(id), cluster_id(), voters.clone()),
            );
        }

        DriverSimCluster {
            states,
            messages: VecDeque::new(),
            partitions: HashSet::new(),
            election_timeout_ms: ELECTION_TIMEOUT_MS,
            clock_ms: 0,
        }
    }

    fn partition(&mut self, a: NodeId, b: NodeId) {
        self.partitions.insert((a, b));
        self.partitions.insert((b, a));
    }

    fn is_partitioned(&self, src: NodeId, dst: NodeId) -> bool {
        self.partitions.contains(&(src, dst))
    }

    fn record_leader_contact(&mut self, node: NodeId, leader: NodeId, term: Term) {
        let state = self.states.get_mut(&node).unwrap();
        state.record_leader_contact(self.clock_ms, leader, term);
    }

    fn advance_clock(&mut self, ms: u64) {
        self.clock_ms += ms;
    }

    /// Fire election timeout via `ElectionDriver::handle`.
    fn fire_election_timeout(&mut self, node_id: NodeId) {
        let state = self.states.get_mut(&node_id).unwrap();
        let batch = ElectionDriver::handle(state, ElectionEvent::ElectionTimeout);
        self.enqueue_batch(node_id, &batch);
    }

    fn enqueue_batch(&mut self, src: NodeId, batch: &ElectionActionBatch) {
        for action in &batch.actions {
            self.enqueue_action(src, action);
        }
    }

    fn enqueue_action(&mut self, src: NodeId, action: &ElectionAction) {
        match action {
            ElectionAction::SendPreVoteRequests(targets) => {
                for (dst, req) in targets {
                    self.messages.push_back(Message::PreVoteReq {
                        from: src,
                        to: *dst,
                        req: req.clone(),
                    });
                }
            }
            ElectionAction::PersistAndSendVoteRequests { requests, .. } => {
                for (dst, req) in requests {
                    self.messages.push_back(Message::RealVoteReq {
                        from: src,
                        to: *dst,
                        req: req.clone(),
                    });
                }
            }
            _ => {}
        }
    }

    /// Deliver all queued messages using `ElectionDriver::handle`.
    fn deliver_all(&mut self) -> Vec<(NodeId, ElectionAction)> {
        let mut results = Vec::new();

        while let Some(msg) = self.messages.pop_front() {
            let (src, dst) = match &msg {
                Message::PreVoteReq { from, to, .. }
                | Message::PreVoteResp { from, to, .. }
                | Message::RealVoteReq { from, to, .. }
                | Message::RealVoteResp { from, to, .. } => (*from, *to),
            };

            if self.is_partitioned(src, dst) {
                continue;
            }

            match msg {
                Message::PreVoteReq { from, to, req } => {
                    let state = self.states.get_mut(&to).unwrap();
                    let batch = ElectionDriver::handle(
                        state,
                        ElectionEvent::VoteRequestReceived {
                            request: req,
                            now_ms: self.clock_ms,
                            election_timeout_ms: self.election_timeout_ms,
                        },
                    );
                    for action in &batch.actions {
                        if let ElectionAction::RespondPreVote(resp) = action {
                            self.messages.push_back(Message::PreVoteResp {
                                from: to,
                                to: from,
                                resp: resp.clone(),
                            });
                        }
                    }
                }
                Message::PreVoteResp { from, to, resp } => {
                    let state = self.states.get_mut(&to).unwrap();
                    let batch = ElectionDriver::handle(
                        state,
                        ElectionEvent::VoteResponseReceived {
                            from,
                            response: resp,
                        },
                    );
                    for action in &batch.actions {
                        results.push((to, action.clone()));
                        self.enqueue_action(to, action);
                    }
                }
                Message::RealVoteReq { from, to, req } => {
                    let state = self.states.get_mut(&to).unwrap();
                    let batch = ElectionDriver::handle(
                        state,
                        ElectionEvent::VoteRequestReceived {
                            request: req,
                            now_ms: self.clock_ms,
                            election_timeout_ms: self.election_timeout_ms,
                        },
                    );
                    for action in &batch.actions {
                        if let ElectionAction::PersistAndRespondVote { response, .. } = action {
                            self.messages.push_back(Message::RealVoteResp {
                                from: to,
                                to: from,
                                resp: response.clone(),
                            });
                        }
                    }
                }
                Message::RealVoteResp { from, to, resp } => {
                    let state = self.states.get_mut(&to).unwrap();
                    let batch = ElectionDriver::handle(
                        state,
                        ElectionEvent::VoteResponseReceived {
                            from,
                            response: resp,
                        },
                    );
                    for action in &batch.actions {
                        results.push((to, action.clone()));
                    }
                }
            }
        }

        results
    }
}

/// Scenario: Pre-Vote prevents disruptive election via driver dispatch.
///
/// N3 is partitioned from leader N1. N3's election timeout fires, it
/// sends pre-votes via ElectionDriver. N2 (which recently heard from N1)
/// rejects the pre-vote through ElectionDriver. N3 cannot proceed.
#[test]
fn driver_partition_scenario_n3_cannot_disrupt() {
    let mut cluster = DriverSimCluster::new(&[1, 2, 3]);

    for state in cluster.states.values_mut() {
        state.current_term = Term(5);
    }

    cluster.states.get_mut(&NodeId(1)).unwrap().role = Role::Leader;
    cluster.states.get_mut(&NodeId(1)).unwrap().leader_id = Some(NodeId(1));

    // N2 heard from leader N1 recently (at t=0).
    cluster.record_leader_contact(NodeId(2), NodeId(1), Term(5));
    // N3 heard from leader earlier.
    cluster.record_leader_contact(NodeId(3), NodeId(1), Term(5));

    // Partition N3 from N1.
    cluster.partition(NodeId(3), NodeId(1));

    // Time advances 50ms - within election timeout.
    cluster.advance_clock(50);

    // N3's election timeout fires via ElectionDriver.
    cluster.fire_election_timeout(NodeId(3));

    // N3 in pre-vote phase, term NOT incremented.
    assert_eq!(cluster.states[&NodeId(3)].election_phase, ElectionPhase::PreVote);
    assert_eq!(cluster.states[&NodeId(3)].current_term, Term(5));

    // Deliver messages via ElectionDriver.
    let results = cluster.deliver_all();

    // N3 did NOT get pre-vote majority.
    assert_eq!(cluster.states[&NodeId(3)].pre_votes_received.len(), 1);
    assert_eq!(cluster.states[&NodeId(3)].current_term, Term(5));
    assert_eq!(cluster.states[&NodeId(3)].voted_for, None);
    assert_eq!(cluster.states[&NodeId(3)].role, Role::Follower);

    // No StartRealElection or BecomeLeader for N3.
    for (id, action) in &results {
        if *id == NodeId(3) {
            assert_ne!(*action, ElectionAction::BecomeLeader);
        }
    }

    // N2 unaffected.
    assert_eq!(cluster.states[&NodeId(2)].current_term, Term(5));
    assert_eq!(cluster.states[&NodeId(2)].voted_for, None);
}

/// Scenario: Pre-Vote succeeds when no leader exists, via driver dispatch.
///
/// No leader in the cluster. N1's election timeout fires via ElectionDriver.
/// N2 and N3 grant pre-votes. ElectionDriver chains into real election.
/// N2 and N3 grant real votes. N1 becomes leader.
#[test]
fn driver_no_leader_pre_vote_succeeds_and_wins() {
    let mut cluster = DriverSimCluster::new(&[1, 2, 3]);
    for state in cluster.states.values_mut() {
        state.current_term = Term(5);
        state.last_log_term = Term(5);
        state.log_end_offset = Offset(10);
        state.last_leader_contact_ms = None;
        state.leader_id = None;
    }

    // N1's election timeout fires via ElectionDriver.
    cluster.fire_election_timeout(NodeId(1));
    assert_eq!(cluster.states[&NodeId(1)].election_phase, ElectionPhase::PreVote);
    assert_eq!(cluster.states[&NodeId(1)].current_term, Term(5));

    // Deliver pre-vote round (requests + responses, chained into real election).
    let results = cluster.deliver_all();

    // N1 should have transitioned to real election.
    assert_eq!(cluster.states[&NodeId(1)].current_term, Term(6));
    assert_eq!(cluster.states[&NodeId(1)].role, Role::Candidate);
    assert_eq!(cluster.states[&NodeId(1)].election_phase, ElectionPhase::Election);

    // Deliver real vote round.
    let results2 = cluster.deliver_all();

    let became_leader = results
        .iter()
        .chain(results2.iter())
        .any(|(id, action)| *id == NodeId(1) && *action == ElectionAction::BecomeLeader);
    assert!(became_leader, "N1 should have become leader via ElectionDriver");
}

/// Scenario: Partition heals after leader contact expires. N3 retries
/// pre-vote via ElectionDriver and succeeds.
#[test]
fn driver_partition_heals_after_timeout() {
    let mut cluster = DriverSimCluster::new(&[1, 2, 3]);

    for state in cluster.states.values_mut() {
        state.current_term = Term(5);
        state.last_log_term = Term(5);
        state.log_end_offset = Offset(10);
    }

    cluster.record_leader_contact(NodeId(2), NodeId(1), Term(5));
    cluster.partition(NodeId(3), NodeId(1));

    // First attempt: N3 pre-vote rejected.
    cluster.advance_clock(50);
    cluster.fire_election_timeout(NodeId(3));
    let _results = cluster.deliver_all();
    assert_eq!(cluster.states[&NodeId(3)].current_term, Term(5));

    // Time passes beyond election timeout.
    cluster.advance_clock(200);

    // Reset N3 for fresh attempt.
    {
        let n3 = cluster.states.get_mut(&NodeId(3)).unwrap();
        n3.election_phase = ElectionPhase::Idle;
        n3.pre_votes_received.clear();
        n3.pre_vote_term = None;
    }

    // Second attempt: N2's leader contact expired, pre-vote succeeds.
    cluster.fire_election_timeout(NodeId(3));
    let results = cluster.deliver_all();
    let results2 = cluster.deliver_all();

    assert_eq!(cluster.states[&NodeId(3)].current_term, Term(6));
    let became_leader = results
        .iter()
        .chain(results2.iter())
        .any(|(id, action)| *id == NodeId(3) && *action == ElectionAction::BecomeLeader);
    assert!(became_leader, "N3 should become leader after timeout expires");
}

/// Edge case: leader from old term does not block pre-vote.
/// N2 heard from a leader but at an old term - should NOT reject pre-vote.
#[test]
fn driver_old_term_leader_does_not_block_pre_vote() {
    let mut cluster = DriverSimCluster::new(&[1, 2, 3]);

    for state in cluster.states.values_mut() {
        state.current_term = Term(5);
        state.last_log_term = Term(5);
        state.log_end_offset = Offset(10);
        state.last_leader_contact_ms = None;
    }

    // N2 heard from leader at OLD term 3 (not current term 5).
    {
        let n2 = cluster.states.get_mut(&NodeId(2)).unwrap();
        n2.last_leader_contact_ms = Some(0);
        n2.leader_id = Some(NodeId(1));
        n2.last_leader_term = Some(Term(3)); // old term
    }

    cluster.advance_clock(50); // within timeout

    // N3's election timeout fires.
    cluster.fire_election_timeout(NodeId(3));
    let _results = cluster.deliver_all();

    // N2 should have granted pre-vote (old-term leader doesn't count).
    // N3 should proceed to real election.
    assert_eq!(cluster.states[&NodeId(3)].current_term, Term(6));
    assert_eq!(cluster.states[&NodeId(3)].role, Role::Candidate);
}

/// Edge case: leader not in voter set does not block pre-vote.
#[test]
fn driver_non_member_leader_does_not_block_pre_vote() {
    let mut cluster = DriverSimCluster::new(&[1, 2, 3]);

    for state in cluster.states.values_mut() {
        state.current_term = Term(5);
        state.last_log_term = Term(5);
        state.log_end_offset = Offset(10);
        state.last_leader_contact_ms = None;
    }

    // N2 heard from NodeId(99) - NOT a cluster member.
    {
        let n2 = cluster.states.get_mut(&NodeId(2)).unwrap();
        n2.last_leader_contact_ms = Some(0);
        n2.leader_id = Some(NodeId(99)); // not in voter set
        n2.last_leader_term = Some(Term(5));
    }

    cluster.advance_clock(50);

    cluster.fire_election_timeout(NodeId(3));
    let _results = cluster.deliver_all();

    // N2 should grant: leader is not a valid cluster member.
    assert_eq!(cluster.states[&NodeId(3)].current_term, Term(6));
    assert_eq!(cluster.states[&NodeId(3)].role, Role::Candidate);
}
