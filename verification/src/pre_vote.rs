//! Elections with a pre-vote round.
//!
//! Before a node starts an election it asks the other voters whether they
//! would vote for it. A voter that heard from the leader recently says no. So
//! a node that was cut off cannot disturb a working cluster by raising terms.
use vstd::prelude::*;

use crate::consensus_state::Role;
use crate::node_set::NodeSet;
use crate::node_state::majority_of;
use crate::rpc::{VoteRequest, VoteResponse};
use crate::types::{ClusterId, NodeId, Offset, Term};
use crate::voter::{clone_voters, contains_voter, has_voter, voter_views, VoterInfo, VoterView};

verus! {

/// Where a node stands on the way to leadership.
#[derive(Debug, Clone, Copy, PartialEq, Eq, Structural)]
pub enum ElectionPhase {
    /// No election is under way.
    Idle,
    /// Asking whether an election would succeed.
    PreVote,
    /// Asking for votes.
    Election,
}

/// The part of a node's state that elections depend on.
#[derive(Debug)]
pub struct NodeState {
    pub node_id: NodeId,
    pub cluster_id: ClusterId,
    pub voter_set: Vec<VoterInfo>,
    pub current_term: Term,
    pub voted_for: Option<NodeId>,
    pub role: Role,
    pub leader_id: Option<NodeId>,
    pub log_end_offset: Offset,
    pub last_log_term: Term,
    pub election_phase: ElectionPhase,
    /// The term that a pre-vote round is about.
    pub pre_vote_term: Option<Term>,
    pub pre_votes_received: NodeSet,
    pub votes_received: NodeSet,
    /// When the leader was last heard of, in milliseconds.
    pub last_leader_contact_ms: Option<u64>,
    /// The term of the leader that was last heard of.
    pub last_leader_term: Option<Term>,
}

#[verifier::ext_equal]
pub struct NodeStateView {
    pub node_id: NodeId,
    pub cluster_id: ClusterId,
    pub voter_set: Seq<VoterView>,
    pub current_term: Term,
    pub voted_for: Option<NodeId>,
    pub role: Role,
    pub leader_id: Option<NodeId>,
    pub log_end_offset: Offset,
    pub last_log_term: Term,
    pub election_phase: ElectionPhase,
    pub pre_vote_term: Option<Term>,
    pub pre_votes_received: Set<u64>,
    pub votes_received: Set<u64>,
    pub last_leader_contact_ms: Option<u64>,
    pub last_leader_term: Option<Term>,
}

impl View for NodeState {
    type V = NodeStateView;

    open spec fn view(&self) -> NodeStateView {
        NodeStateView {
            node_id: self.node_id,
            cluster_id: self.cluster_id,
            voter_set: voter_views(self.voter_set@),
            current_term: self.current_term,
            voted_for: self.voted_for,
            role: self.role,
            leader_id: self.leader_id,
            log_end_offset: self.log_end_offset,
            last_log_term: self.last_log_term,
            election_phase: self.election_phase,
            pre_vote_term: self.pre_vote_term,
            pre_votes_received: self.pre_votes_received@,
            votes_received: self.votes_received@,
            last_leader_contact_ms: self.last_leader_contact_ms,
            last_leader_term: self.last_leader_term,
        }
    }
}

impl Clone for NodeState {
    fn clone(&self) -> (r: Self)
        ensures
            r@ == self@,
    {
        NodeState {
            node_id: self.node_id,
            cluster_id: self.cluster_id,
            voter_set: clone_voters(&self.voter_set),
            current_term: self.current_term,
            voted_for: self.voted_for,
            role: self.role,
            leader_id: self.leader_id,
            log_end_offset: self.log_end_offset,
            last_log_term: self.last_log_term,
            election_phase: self.election_phase,
            pre_vote_term: self.pre_vote_term,
            pre_votes_received: self.pre_votes_received.clone(),
            votes_received: self.votes_received.clone(),
            last_leader_contact_ms: self.last_leader_contact_ms,
            last_leader_term: self.last_leader_term,
        }
    }
}

/// What a node is to do about an election.
#[derive(Debug, PartialEq, Eq)]
#[allow(inconsistent_fields)]
pub enum ElectionAction {
    NoAction,
    SendPreVoteRequests(Vec<(NodeId, VoteRequest)>),
    /// The pre-vote round succeeded.
    StartRealElection,
    /// Save term and vote, then send the requests.
    PersistAndSendVoteRequests {
        term: Term,
        voted_for: NodeId,
        requests: Vec<(NodeId, VoteRequest)>,
    },
    /// Answer a pre-vote. Nothing is saved.
    RespondPreVote(VoteResponse),
    /// Save term and vote, then answer.
    PersistAndRespondVote { term: Term, voted_for: Option<NodeId>, response: VoteResponse },
    /// Save the new term.
    PersistAndStepDown { new_term: Term },
    /// The election is won.
    BecomeLeader,
}

#[verifier::ext_equal]
#[allow(inconsistent_fields)]
pub enum ElectionActionView {
    NoAction,
    SendPreVoteRequests(Seq<(NodeId, VoteRequest)>),
    StartRealElection,
    PersistAndSendVoteRequests {
        term: Term,
        voted_for: NodeId,
        requests: Seq<(NodeId, VoteRequest)>,
    },
    RespondPreVote(VoteResponse),
    PersistAndRespondVote { term: Term, voted_for: Option<NodeId>, response: VoteResponse },
    PersistAndStepDown { new_term: Term },
    BecomeLeader,
}

impl View for ElectionAction {
    type V = ElectionActionView;

    open spec fn view(&self) -> ElectionActionView {
        match self {
            ElectionAction::NoAction => ElectionActionView::NoAction,
            ElectionAction::SendPreVoteRequests(r) => ElectionActionView::SendPreVoteRequests(r@),
            ElectionAction::StartRealElection => ElectionActionView::StartRealElection,
            ElectionAction::PersistAndSendVoteRequests {
                term,
                voted_for,
                requests,
            } => ElectionActionView::PersistAndSendVoteRequests {
                term: *term,
                voted_for: *voted_for,
                requests: requests@,
            },
            ElectionAction::RespondPreVote(r) => ElectionActionView::RespondPreVote(*r),
            ElectionAction::PersistAndRespondVote {
                term,
                voted_for,
                response,
            } => ElectionActionView::PersistAndRespondVote {
                term: *term,
                voted_for: *voted_for,
                response: *response,
            },
            ElectionAction::PersistAndStepDown {
                new_term,
            } => ElectionActionView::PersistAndStepDown { new_term: *new_term },
            ElectionAction::BecomeLeader => ElectionActionView::BecomeLeader,
        }
    }
}

fn clone_requests(requests: &Vec<(NodeId, VoteRequest)>) -> (r: Vec<(NodeId, VoteRequest)>)
    ensures
        r@ == requests@,
{
    let mut r: Vec<(NodeId, VoteRequest)> = Vec::new();
    let mut i: usize = 0;
    while i < requests.len()
        invariant
            i <= requests@.len(),
            r@ == requests@.take(i as int),
        decreases requests@.len() - i,
    {
        r.push(requests[i]);
        i = i + 1;
        assert(r@ =~= requests@.take(i as int));
    }
    assert(r@ =~= requests@);
    r
}

impl Clone for ElectionAction {
    fn clone(&self) -> (r: Self)
        ensures
            r@ == self@,
    {
        match self {
            ElectionAction::NoAction => ElectionAction::NoAction,
            ElectionAction::SendPreVoteRequests(r) => ElectionAction::SendPreVoteRequests(
                clone_requests(r),
            ),
            ElectionAction::StartRealElection => ElectionAction::StartRealElection,
            ElectionAction::PersistAndSendVoteRequests {
                term,
                voted_for,
                requests,
            } => ElectionAction::PersistAndSendVoteRequests {
                term: *term,
                voted_for: *voted_for,
                requests: clone_requests(requests),
            },
            ElectionAction::RespondPreVote(r) => ElectionAction::RespondPreVote(*r),
            ElectionAction::PersistAndRespondVote {
                term,
                voted_for,
                response,
            } => ElectionAction::PersistAndRespondVote {
                term: *term,
                voted_for: *voted_for,
                response: *response,
            },
            ElectionAction::PersistAndStepDown { new_term } => ElectionAction::PersistAndStepDown {
                new_term: *new_term,
            },
            ElectionAction::BecomeLeader => ElectionAction::BecomeLeader,
        }
    }
}

/// A request to each voter of the list other than the sender.
pub open spec fn requests_to(
    voters: Seq<VoterView>,
    sender: NodeId,
    request: VoteRequest,
) -> Seq<(NodeId, VoteRequest)> {
    voters.filter(|v: VoterView| v.node_id != sender).map_values(
        |v: VoterView| (v.node_id, request),
    )
}

impl NodeStateView {
    /// A fresh follower.
    pub open spec fn fresh(
        node_id: NodeId,
        cluster_id: ClusterId,
        voter_set: Seq<VoterView>,
    ) -> Self {
        NodeStateView {
            node_id,
            cluster_id,
            voter_set,
            current_term: Term(0),
            voted_for: None,
            role: Role::Follower,
            leader_id: None,
            log_end_offset: Offset(0),
            last_log_term: Term(0),
            election_phase: ElectionPhase::Idle,
            pre_vote_term: None,
            pre_votes_received: Set::empty(),
            votes_received: Set::empty(),
            last_leader_contact_ms: None,
            last_leader_term: None,
        }
    }

    pub open spec fn majority(self) -> nat {
        majority_of(self.voter_set.len())
    }

    /// The leader of the current term, a voter, was heard of less than
    /// `timeout` ago.
    pub open spec fn lease_active(self, now: u64, timeout: u64) -> bool {
        &&& self.last_leader_contact_ms matches Some(t) && now < t + timeout
        &&& self.leader_id matches Some(l) && has_voter(self.voter_set, l)
        &&& self.last_leader_term == Some(self.current_term)
    }

    /// A candidate's log is at least as current as the node's.
    pub open spec fn log_current(self, req: VoteRequest) -> bool {
        ||| req.last_log_term.0 > self.last_log_term.0
        ||| req.last_log_term == self.last_log_term && req.last_log_offset.0
            >= self.log_end_offset.0
    }

    /// A follower of a higher term with no election under way.
    pub open spec fn stepped_down(self, term: Term) -> Self {
        NodeStateView {
            current_term: term,
            voted_for: None,
            role: Role::Follower,
            leader_id: None,
            election_phase: ElectionPhase::Idle,
            pre_vote_term: None,
            pre_votes_received: Set::empty(),
            votes_received: Set::empty(),
            ..self
        }
    }

    /// With a contact of the leader on record.
    pub open spec fn with_contact(self, now: u64, leader: NodeId, term: Term) -> Self {
        NodeStateView {
            last_leader_contact_ms: Some(now),
            leader_id: Some(leader),
            last_leader_term: Some(term),
            ..self
        }
    }

    /// In a pre-vote round about the next term, with its own pre-vote.
    pub open spec fn in_pre_vote(self) -> Self {
        NodeStateView {
            election_phase: ElectionPhase::PreVote,
            pre_vote_term: Some(Term((self.current_term.0 + 1) as u64)),
            pre_votes_received: Set::empty().insert(self.node_id.0),
            ..self
        }
    }

    /// A candidate of the next term with its own vote.
    pub open spec fn in_election(self) -> Self {
        NodeStateView {
            current_term: Term((self.current_term.0 + 1) as u64),
            voted_for: Some(self.node_id),
            role: Role::Candidate,
            leader_id: None,
            election_phase: ElectionPhase::Election,
            pre_vote_term: None,
            pre_votes_received: Set::empty(),
            votes_received: Set::empty().insert(self.node_id.0),
            ..self
        }
    }

    /// The request of this node for votes in `term`.
    pub open spec fn request(self, term: Term, is_pre_vote: bool) -> VoteRequest {
        VoteRequest {
            term,
            candidate_id: self.node_id,
            last_log_offset: self.log_end_offset,
            last_log_term: self.last_log_term,
            is_pre_vote,
        }
    }

    /// Starting a pre-vote round. A node that is no voter does not.
    pub open spec fn pre_vote_started(self) -> (Self, ElectionActionView) {
        if !has_voter(self.voter_set, self.node_id) {
            (self, ElectionActionView::NoAction)
        } else {
            let p = self.in_pre_vote();
            if p.pre_votes_received.len() >= self.majority() {
                (p, ElectionActionView::StartRealElection)
            } else {
                (
                    p,
                    ElectionActionView::SendPreVoteRequests(
                        requests_to(
                            self.voter_set,
                            self.node_id,
                            self.request(Term((self.current_term.0 + 1) as u64), true),
                        ),
                    ),
                )
            }
        }
    }

    /// A majority of pre-votes is there.
    pub open spec fn may_start_election(self) -> bool {
        self.election_phase == ElectionPhase::PreVote && self.pre_votes_received.len()
            >= self.majority()
    }

    /// Starting an election, which takes a majority of pre-votes.
    pub open spec fn election_started(self) -> (Self, ElectionActionView) {
        if !self.may_start_election() {
            (self, ElectionActionView::NoAction)
        } else {
            let c = self.in_election();
            if c.votes_received.len() >= self.majority() {
                (c, ElectionActionView::BecomeLeader)
            } else {
                (
                    c,
                    ElectionActionView::PersistAndSendVoteRequests {
                        term: c.current_term,
                        voted_for: self.node_id,
                        requests: requests_to(
                            self.voter_set,
                            self.node_id,
                            c.request(c.current_term, false),
                        ),
                    },
                )
            }
        }
    }

    /// The election timeout: a pre-vote round, and the election at once where
    /// that needs nobody else.
    pub open spec fn timed_out(self) -> (Self, ElectionActionView) {
        let (p, a) = self.pre_vote_started();
        if a == ElectionActionView::StartRealElection {
            p.election_started()
        } else {
            (p, a)
        }
    }

    /// A pre-vote is granted.
    pub open spec fn grants_pre_vote(self, req: VoteRequest, now: u64, timeout: u64) -> bool {
        &&& req.term.0 >= self.current_term.0
        &&& self.log_current(req)
        &&& !self.lease_active(now, timeout)
    }

    /// A vote is granted, in a state that has seen the request's term.
    pub open spec fn grants_vote(self, req: VoteRequest) -> bool {
        &&& self.role != Role::Leader
        &&& req.term.0 >= self.current_term.0
        &&& self.voted_for is None || self.voted_for == Some(req.candidate_id)
        &&& self.log_current(req)
    }

    /// A vote or pre-vote request.
    pub open spec fn vote_requested(self, req: VoteRequest, now: u64, timeout: u64) -> (
        Self,
        ElectionActionView,
    ) {
        if req.is_pre_vote {
            (
                self,
                ElectionActionView::RespondPreVote(
                    VoteResponse {
                        term: self.current_term,
                        vote_granted: self.grants_pre_vote(req, now, timeout),
                        is_pre_vote: true,
                    },
                ),
            )
        } else {
            let d = if req.term.0 > self.current_term.0 {
                self.stepped_down(req.term)
            } else {
                self
            };
            let granted = d.grants_vote(req);
            let v = if granted {
                NodeStateView { voted_for: Some(req.candidate_id), ..d }
            } else {
                d
            };
            (
                v,
                ElectionActionView::PersistAndRespondVote {
                    term: v.current_term,
                    voted_for: v.voted_for,
                    response: VoteResponse {
                        term: v.current_term,
                        vote_granted: granted,
                        is_pre_vote: false,
                    },
                },
            )
        }
    }

    /// A vote or pre-vote response. Only voters count.
    pub open spec fn vote_answered(self, from: NodeId, resp: VoteResponse) -> (
        Self,
        ElectionActionView,
    ) {
        if !has_voter(self.voter_set, from) {
            (self, ElectionActionView::NoAction)
        } else if resp.term.0 > self.current_term.0 {
            (
                self.stepped_down(resp.term),
                ElectionActionView::PersistAndStepDown { new_term: resp.term },
            )
        } else if resp.term.0 < self.current_term.0 || !resp.vote_granted {
            (self, ElectionActionView::NoAction)
        } else if resp.is_pre_vote {
            if self.election_phase != ElectionPhase::PreVote {
                (self, ElectionActionView::NoAction)
            } else {
                let p = NodeStateView {
                    pre_votes_received: self.pre_votes_received.insert(from.0),
                    ..self
                };
                (
                    p,
                    if p.pre_votes_received.len() >= self.majority() {
                        ElectionActionView::StartRealElection
                    } else {
                        ElectionActionView::NoAction
                    },
                )
            }
        } else if self.election_phase != ElectionPhase::Election || self.role != Role::Candidate {
            (self, ElectionActionView::NoAction)
        } else {
            let v = NodeStateView {
                votes_received: self.votes_received.insert(from.0),
                ..self
            };
            (
                v,
                if v.votes_received.len() >= self.majority() {
                    ElectionActionView::BecomeLeader
                } else {
                    ElectionActionView::NoAction
                },
            )
        }
    }

    /// A fetch response: a leader of the current or a higher term exists.
    pub open spec fn leader_heard(self, response: FetchResponse, now: u64) -> (
        Self,
        ElectionActionView,
    ) {
        if response.term.0 > self.current_term.0 {
            (
                self.stepped_down(response.term).with_contact(
                    now,
                    response.leader_id,
                    response.term,
                ),
                ElectionActionView::PersistAndStepDown { new_term: response.term },
            )
        } else if response.term.0 < self.current_term.0 || self.role == Role::Leader {
            (self, ElectionActionView::NoAction)
        } else {
            let f = NodeStateView {
                role: Role::Follower,
                election_phase: ElectionPhase::Idle,
                pre_vote_term: None,
                pre_votes_received: Set::empty(),
                votes_received: Set::empty(),
                ..self
            };
            (f.with_contact(now, response.leader_id, response.term), ElectionActionView::NoAction)
        }
    }

    /// An event that starts a pre-vote round or an election, and so looks ahead
    /// to the next term.
    pub open spec fn starts_round(self, event: ElectionEvent) -> bool {
        match event {
            ElectionEvent::ElectionTimeout => has_voter(self.voter_set, self.node_id),
            ElectionEvent::VoteResponseReceived { from, response } => self.vote_answered(
                from,
                response,
            ).1 == ElectionActionView::StartRealElection,
            _ => false,
        }
    }

    /// An event, with the start of the election that a successful pre-vote
    /// round leads to.
    pub open spec fn after(self, event: ElectionEvent) -> (Self, ElectionActionView) {
        match event {
            ElectionEvent::ElectionTimeout => self.timed_out(),
            ElectionEvent::VoteRequestReceived {
                request,
                now_ms,
                election_timeout_ms,
            } => self.vote_requested(request, now_ms, election_timeout_ms),
            ElectionEvent::VoteResponseReceived { from, response } => {
                let (s, a) = self.vote_answered(from, response);
                if a == ElectionActionView::StartRealElection {
                    s.election_started()
                } else {
                    (s, a)
                }
            },
            ElectionEvent::FetchResponseReceived { response, now_ms } => self.leader_heard(
                response,
                now_ms,
            ),
        }
    }
}

impl NodeState {
    pub fn new(node_id: NodeId, cluster_id: ClusterId, voter_set: Vec<VoterInfo>) -> (r: Self)
        ensures
            r@ == NodeStateView::fresh(node_id, cluster_id, voter_views(voter_set@)),
    {
        NodeState {
            node_id,
            cluster_id,
            voter_set,
            current_term: Term(0),
            voted_for: None,
            role: Role::Follower,
            leader_id: None,
            log_end_offset: Offset(0),
            last_log_term: Term(0),
            election_phase: ElectionPhase::Idle,
            pre_vote_term: None,
            pre_votes_received: NodeSet::new(),
            votes_received: NodeSet::new(),
            last_leader_contact_ms: None,
            last_leader_term: None,
        }
    }

    /// Record that the leader of `term` was heard of.
    pub fn record_leader_contact(&mut self, now_ms: u64, leader: NodeId, term: Term)
        ensures
            final(self)@ == old(self)@.with_contact(now_ms, leader, term),
    {
        self.last_leader_contact_ms = Some(now_ms);
        self.leader_id = Some(leader);
        self.last_leader_term = Some(term);
    }

    fn majority(&self) -> (n: usize)
        ensures
            n == self@.majority(),
    {
        self.voter_set.len() / 2 + 1
    }

    fn step_down(&mut self, term: Term)
        ensures
            final(self)@ == old(self)@.stepped_down(term),
    {
        self.current_term = term;
        self.voted_for = None;
        self.role = Role::Follower;
        self.leader_id = None;
        self.election_phase = ElectionPhase::Idle;
        self.pre_vote_term = None;
        self.pre_votes_received.clear();
        self.votes_received.clear();
    }

    fn lease_active(&self, now_ms: u64, election_timeout_ms: u64) -> (b: bool)
        ensures
            b == self@.lease_active(now_ms, election_timeout_ms),
    {
        let recent = match self.last_leader_contact_ms {
            Some(t) => if now_ms < t {
                true
            } else {
                now_ms - t < election_timeout_ms
            },
            None => false,
        };
        if !recent {
            return false;
        }
        match self.leader_id {
            Some(l) => {
                if !contains_voter(&self.voter_set, l) {
                    return false;
                }
            },
            None => {
                return false;
            },
        }
        match self.last_leader_term {
            Some(t) => t == self.current_term,
            None => false,
        }
    }

    fn log_current(&self, req: &VoteRequest) -> (b: bool)
        ensures
            b == self@.log_current(*req),
    {
        req.last_log_term.0 > self.last_log_term.0 || (req.last_log_term == self.last_log_term
            && req.last_log_offset.0 >= self.log_end_offset.0)
    }

    fn requests_to_others(&self, request: VoteRequest) -> (r: Vec<(NodeId, VoteRequest)>)
        ensures
            r@ == requests_to(self@.voter_set, self.node_id, request),
    {
        let ghost voters = self@.voter_set;
        let ghost id = self.node_id;
        let mut r: Vec<(NodeId, VoteRequest)> = Vec::new();
        let mut i: usize = 0;
        proof {
            reveal(Seq::filter);
            assert(voters.take(0) =~= Seq::<VoterView>::empty());
            assert(r@ =~= requests_to(voters.take(0), id, request));
        }
        while i < self.voter_set.len()
            invariant
                i <= self.voter_set@.len(),
                voters == self@.voter_set,
                id == self.node_id,
                r@ == requests_to(voters.take(i as int), id, request),
            decreases self.voter_set@.len() - i,
        {
            let voter = self.voter_set[i].node_id;
            let ghost prev = r@;
            proof {
                reveal(Seq::filter);
                assert(voters[i as int] == self.voter_set@[i as int]@);
                assert(voters.take(i + 1).drop_last() =~= voters.take(i as int));
                assert(voters.take(i + 1).last() == voters[i as int]);
            }
            if voter != self.node_id {
                r.push((voter, request));
                assert(requests_to(voters.take(i + 1), id, request) =~= prev.push(
                    (voter, request),
                ));
            }
            i = i + 1;
        }
        assert(voters.take(i as int) =~= voters);
        r
    }
}

/// What a fetch response says about the leader.
#[derive(Debug, Clone, Copy, PartialEq, Eq, Structural)]
pub struct FetchResponse {
    pub term: Term,
    pub leader_id: NodeId,
    pub high_watermark: Offset,
}

/// Decides on votes and elections. Nothing here saves or sends.
pub struct ElectionManager;

impl ElectionManager {
    /// Start a pre-vote round about the next term. Term, vote and role stay
    /// as they are: the node still accepts contact from a leader.
    pub fn start_pre_vote(state: &mut NodeState) -> (a: ElectionAction)
        requires
            has_voter(old(state)@.voter_set, old(state).node_id) ==> old(state).current_term.0
                < u64::MAX,
        ensures
            (final(state)@, a@) == old(state)@.pre_vote_started(),
    {
        if !contains_voter(&state.voter_set, state.node_id) {
            return ElectionAction::NoAction;
        }
        let term = Term(state.current_term.0 + 1);
        state.election_phase = ElectionPhase::PreVote;
        state.pre_vote_term = Some(term);
        state.pre_votes_received.clear();
        state.pre_votes_received.insert(state.node_id);
        if state.pre_votes_received.len() >= state.majority() {
            return ElectionAction::StartRealElection;
        }
        let request = VoteRequest {
            term,
            candidate_id: state.node_id,
            last_log_offset: state.log_end_offset,
            last_log_term: state.last_log_term,
            is_pre_vote: true,
        };
        ElectionAction::SendPreVoteRequests(state.requests_to_others(request))
    }

    /// Start an election after a successful pre-vote round. Without one
    /// nothing happens.
    pub fn start_real_election(state: &mut NodeState) -> (a: ElectionAction)
        requires
            old(state)@.may_start_election() ==> old(state).current_term.0 < u64::MAX,
        ensures
            (final(state)@, a@) == old(state)@.election_started(),
    {
        if state.election_phase != ElectionPhase::PreVote || state.pre_votes_received.len()
            < state.majority() {
            return ElectionAction::NoAction;
        }
        state.current_term = Term(state.current_term.0 + 1);
        state.voted_for = Some(state.node_id);
        state.role = Role::Candidate;
        state.leader_id = None;
        state.election_phase = ElectionPhase::Election;
        state.pre_vote_term = None;
        state.pre_votes_received.clear();
        state.votes_received.clear();
        state.votes_received.insert(state.node_id);
        if state.votes_received.len() >= state.majority() {
            return ElectionAction::BecomeLeader;
        }
        let request = VoteRequest {
            term: state.current_term,
            candidate_id: state.node_id,
            last_log_offset: state.log_end_offset,
            last_log_term: state.last_log_term,
            is_pre_vote: false,
        };
        ElectionAction::PersistAndSendVoteRequests {
            term: state.current_term,
            voted_for: state.node_id,
            requests: state.requests_to_others(request),
        }
    }

    /// Continue with the election that a pre-vote round led to.
    pub fn proceed_to_real_election(state: &mut NodeState) -> (a: ElectionAction)
        requires
            old(state)@.may_start_election() ==> old(state).current_term.0 < u64::MAX,
        ensures
            (final(state)@, a@) == old(state)@.election_started(),
    {
        Self::start_real_election(state)
    }

    /// Handle an election timeout.
    pub fn on_election_timeout(state: &mut NodeState) -> (a: ElectionAction)
        requires
            has_voter(old(state)@.voter_set, old(state).node_id) ==> old(state).current_term.0
                < u64::MAX,
        ensures
            (final(state)@, a@) == old(state)@.timed_out(),
    {
        match Self::start_pre_vote(state) {
            ElectionAction::StartRealElection => Self::start_real_election(state),
            a => a,
        }
    }

    /// Handle a request for a vote or a pre-vote.
    ///
    /// A pre-vote is answered without any change, and denied while the leader
    /// of the current term was heard of recently. A vote is given once per
    /// term, to a candidate whose log is at least as current.
    pub fn handle_vote_request(
        state: &mut NodeState,
        req: &VoteRequest,
        now_ms: u64,
        election_timeout_ms: u64,
    ) -> (a: ElectionAction)
        ensures
            (final(state)@, a@) == old(state)@.vote_requested(*req, now_ms, election_timeout_ms),
            a matches ElectionAction::RespondPreVote(resp) ==> (resp.vote_granted ==> {
                &&& req.last_log_term.0 >= old(state).last_log_term.0
                &&& req.last_log_term.0 == old(state).last_log_term.0 ==> req.last_log_offset.0
                    >= old(state).log_end_offset.0
            }),
            a matches ElectionAction::PersistAndRespondVote { term, voted_for, response } ==> (
            response.vote_granted ==> {
                &&& req.last_log_term.0 >= old(state).last_log_term.0
                &&& req.last_log_term.0 == old(state).last_log_term.0 ==> req.last_log_offset.0
                    >= old(state).log_end_offset.0
            }),
    {
        if req.is_pre_vote {
            let vote_granted = req.term.0 >= state.current_term.0 && state.log_current(req)
                && !state.lease_active(now_ms, election_timeout_ms);
            return ElectionAction::RespondPreVote(
                VoteResponse { term: state.current_term, vote_granted, is_pre_vote: true },
            );
        }
        if req.term.0 > state.current_term.0 {
            state.step_down(req.term);
        }
        let free = match state.voted_for {
            Some(v) => v == req.candidate_id,
            None => true,
        };
        let vote_granted = state.role != Role::Leader && req.term.0 >= state.current_term.0 && free
            && state.log_current(req);
        if vote_granted {
            state.voted_for = Some(req.candidate_id);
        }
        ElectionAction::PersistAndRespondVote {
            term: state.current_term,
            voted_for: state.voted_for,
            response: VoteResponse { term: state.current_term, vote_granted, is_pre_vote: false },
        }
    }

    /// Handle a vote or pre-vote response. Responses of nodes that are no
    /// voters are ignored, as are stale ones; a higher term makes the node
    /// step down.
    pub fn handle_vote_response(
        state: &mut NodeState,
        from: NodeId,
        resp: &VoteResponse,
    ) -> (a: ElectionAction)
        ensures
            (final(state)@, a@) == old(state)@.vote_answered(from, *resp),
    {
        if !contains_voter(&state.voter_set, from) {
            return ElectionAction::NoAction;
        }
        if resp.term.0 > state.current_term.0 {
            state.step_down(resp.term);
            return ElectionAction::PersistAndStepDown { new_term: resp.term };
        }
        if resp.term.0 < state.current_term.0 || !resp.vote_granted {
            return ElectionAction::NoAction;
        }
        if resp.is_pre_vote {
            if state.election_phase != ElectionPhase::PreVote {
                return ElectionAction::NoAction;
            }
            state.pre_votes_received.insert(from);
            if state.pre_votes_received.len() >= state.majority() {
                return ElectionAction::StartRealElection;
            }
            return ElectionAction::NoAction;
        }
        if state.election_phase != ElectionPhase::Election || state.role != Role::Candidate {
            return ElectionAction::NoAction;
        }
        state.votes_received.insert(from);
        if state.votes_received.len() >= state.majority() {
            return ElectionAction::BecomeLeader;
        }
        ElectionAction::NoAction
    }

    /// Handle a fetch response: adopt a higher term, give up an election of
    /// the leader's term, and record the contact.
    pub fn handle_fetch_response(
        state: &mut NodeState,
        response: &FetchResponse,
        now_ms: u64,
    ) -> (a: ElectionAction)
        ensures
            (final(state)@, a@) == old(state)@.leader_heard(*response, now_ms),
    {
        if response.term.0 > state.current_term.0 {
            state.step_down(response.term);
            state.record_leader_contact(now_ms, response.leader_id, response.term);
            return ElectionAction::PersistAndStepDown { new_term: response.term };
        }
        if response.term.0 < state.current_term.0 || state.role == Role::Leader {
            return ElectionAction::NoAction;
        }
        state.role = Role::Follower;
        state.election_phase = ElectionPhase::Idle;
        state.pre_vote_term = None;
        state.pre_votes_received.clear();
        state.votes_received.clear();
        state.record_leader_contact(now_ms, response.leader_id, response.term);
        ElectionAction::NoAction
    }
}

/// What can happen to a node.
#[derive(Debug, Clone, Copy)]
#[allow(inconsistent_fields)]
pub enum ElectionEvent {
    ElectionTimeout,
    VoteRequestReceived { request: VoteRequest, now_ms: u64, election_timeout_ms: u64 },
    VoteResponseReceived { from: NodeId, response: VoteResponse },
    FetchResponseReceived { response: FetchResponse, now_ms: u64 },
}

/// The actions that an event led to.
#[derive(Debug)]
pub struct ElectionActionBatch {
    pub actions: Vec<ElectionAction>,
}

/// The views of a list of actions.
pub open spec fn action_views(actions: Seq<ElectionAction>) -> Seq<ElectionActionView> {
    actions.map_values(|a: ElectionAction| a@)
}

/// The list with an action, or an empty list for none.
pub open spec fn listed(a: ElectionActionView) -> Seq<ElectionActionView> {
    if a == ElectionActionView::NoAction {
        seq![]
    } else {
        seq![a]
    }
}

/// The entry point of the event loop.
pub struct ElectionDriver;

impl ElectionDriver {
    /// Handle an event. A successful pre-vote round goes on to the election at
    /// once, so the batch never holds [`ElectionAction::StartRealElection`].
    pub fn handle(state: &mut NodeState, event: ElectionEvent) -> (batch: ElectionActionBatch)
        requires
            old(state)@.starts_round(event) ==> old(state).current_term.0 < u64::MAX,
        ensures
            (final(state)@, action_views(batch.actions@)) == (
                old(state)@.after(event).0,
                listed(old(state)@.after(event).1),
            ),
    {
        let action = match event {
            ElectionEvent::ElectionTimeout => ElectionManager::on_election_timeout(state),
            ElectionEvent::VoteRequestReceived {
                request,
                now_ms,
                election_timeout_ms,
            } => ElectionManager::handle_vote_request(
                state,
                &request,
                now_ms,
                election_timeout_ms,
            ),
            ElectionEvent::VoteResponseReceived { from, response } => {
                match ElectionManager::handle_vote_response(state, from, &response) {
                    ElectionAction::StartRealElection =>
                        ElectionManager::proceed_to_real_election(state),
                    a => a,
                }
            },
            ElectionEvent::FetchResponseReceived {
                response,
                now_ms,
            } => ElectionManager::handle_fetch_response(state, &response, now_ms),
        };
        let ghost view = action@;
        let mut actions: Vec<ElectionAction> = Vec::new();
        match action {
            ElectionAction::NoAction => {},
            a => actions.push(a),
        }
        assert(action_views(actions@) =~= listed(view));
        ElectionActionBatch { actions }
    }
}

/// Keeps what was saved in memory, and can be told to fail.
#[derive(Debug)]
pub struct InMemoryQuorumStateStore {
    /// How often state was saved.
    pub persist_count: u64,
    /// The text with which the next save fails.
    pub fail_next_persist: Option<String>,
    pub current_term: Term,
    pub voted_for: Option<NodeId>,
}

impl InMemoryQuorumStateStore {
    pub fn new() -> (r: Self)
        ensures
            r.persist_count == 0,
            r.fail_next_persist is None,
            r.current_term == Term(0),
            r.voted_for is None,
    {
        InMemoryQuorumStateStore {
            persist_count: 0,
            fail_next_persist: None,
            current_term: Term(0),
            voted_for: None,
        }
    }

    /// A save of term and vote: what the store holds after, with which result.
    pub open spec fn saved(
        before: Self,
        after: Self,
        term: Term,
        voted_for: Option<NodeId>,
        r: Result<(), String>,
    ) -> bool {
        match before.fail_next_persist {
            Some(m) => {
                &&& r == Err::<(), String>(m)
                &&& after.fail_next_persist is None
                &&& after.persist_count == before.persist_count
                &&& after.current_term == before.current_term
                &&& after.voted_for == before.voted_for
            },
            None => {
                &&& r is Ok
                &&& after.fail_next_persist is None
                &&& after.persist_count == before.persist_count + 1
                &&& after.current_term == term
                &&& after.voted_for == voted_for
            },
        }
    }

    /// Save term and vote.
    pub fn persist(&mut self, term: Term, voted_for: Option<NodeId>) -> (r: Result<(), String>)
        requires
            old(self).fail_next_persist is None ==> old(self).persist_count < u64::MAX,
        ensures
            Self::saved(*old(self), *final(self), term, voted_for, r),
    {
        match self.fail_next_persist.take() {
            Some(m) => Err(m),
            None => {
                self.persist_count = self.persist_count + 1;
                self.current_term = term;
                self.voted_for = voted_for;
                Ok(())
            },
        }
    }
}

/// What is to be sent after an event, and what became of it.
#[derive(Debug)]
pub struct ElectionResult {
    pub pre_vote_requests: Vec<(NodeId, VoteRequest)>,
    pub vote_requests: Vec<(NodeId, VoteRequest)>,
    pub pre_vote_response: Option<VoteResponse>,
    pub vote_response: Option<VoteResponse>,
    pub became_leader: bool,
    /// Why the state could not be saved.
    pub persist_failed: Option<String>,
}

impl ElectionResult {
    pub fn empty() -> (r: Self)
        ensures
            r.sends_nothing(),
            r.persist_failed is None,
    {
        ElectionResult {
            pre_vote_requests: Vec::new(),
            vote_requests: Vec::new(),
            pre_vote_response: None,
            vote_response: None,
            became_leader: false,
            persist_failed: None,
        }
    }

    pub open spec fn sends_nothing(self) -> bool {
        &&& self.pre_vote_requests@.len() == 0
        &&& self.vote_requests@.len() == 0
        &&& self.pre_vote_response is None
        &&& self.vote_response is None
        &&& !self.became_leader
    }

    /// The result of carrying out an action.
    pub open spec fn carries(self, a: ElectionActionView) -> bool {
        &&& self.persist_failed is None
        &&& self.pre_vote_requests@ == (match a {
            ElectionActionView::SendPreVoteRequests(r) => r,
            _ => seq![],
        })
        &&& self.vote_requests@ == (match a {
            ElectionActionView::PersistAndSendVoteRequests { term, voted_for, requests } => requests,
            _ => seq![],
        })
        &&& self.pre_vote_response == (match a {
            ElectionActionView::RespondPreVote(r) => Some(r),
            _ => None,
        })
        &&& self.vote_response == (match a {
            ElectionActionView::PersistAndRespondVote { term, voted_for, response } => Some(
                response,
            ),
            _ => None,
        })
        &&& self.became_leader == (a == ElectionActionView::BecomeLeader)
    }
}

/// True of an action that saves term and vote first.
pub open spec fn saves(a: ElectionActionView) -> bool {
    match a {
        ElectionActionView::PersistAndSendVoteRequests { term, voted_for, requests } => true,
        ElectionActionView::PersistAndRespondVote { term, voted_for, response } => true,
        ElectionActionView::PersistAndStepDown { new_term } => true,
        ElectionActionView::BecomeLeader => true,
        _ => false,
    }
}

/// The state of a node that has won, and saved so.
pub open spec fn installed(s: NodeStateView, a: ElectionActionView) -> NodeStateView {
    if a == ElectionActionView::BecomeLeader {
        NodeStateView {
            role: Role::Leader,
            leader_id: Some(s.node_id),
            election_phase: ElectionPhase::Idle,
            ..s
        }
    } else {
        s
    }
}

/// What carrying out an event does to the node and to the store, and what is to
/// be sent then.
pub open spec fn executed(
    before: NodeStateView,
    event: ElectionEvent,
    store_before: InMemoryQuorumStateStore,
    after: NodeStateView,
    store_after: InMemoryQuorumStateStore,
    result: ElectionResult,
) -> bool {
    let (s, a) = before.after(event);
    if saves(a) {
        match store_before.fail_next_persist {
            Some(m) => {
                &&& after == before
                &&& result.sends_nothing()
                &&& result.persist_failed == Some(m)
                &&& InMemoryQuorumStateStore::saved(
                    store_before,
                    store_after,
                    s.current_term,
                    s.voted_for,
                    Err(m),
                )
            },
            None => {
                &&& after == installed(s, a)
                &&& result.carries(a)
                &&& InMemoryQuorumStateStore::saved(
                    store_before,
                    store_after,
                    s.current_term,
                    s.voted_for,
                    Ok(()),
                )
            },
        }
    } else {
        &&& after == s
        &&& result.carries(a)
        &&& store_after == store_before
    }
}

/// Carries out the actions of an event.
pub struct ElectionExecutor;

impl ElectionExecutor {
    /// Handle an event: term and vote are saved before anything that depends
    /// on them is sent. If that fails the node goes back to the state before
    /// the event, and nothing is sent.
    pub fn handle_event(
        state: &mut NodeState,
        event: ElectionEvent,
        store: &mut InMemoryQuorumStateStore,
    ) -> (r: (ElectionActionBatch, ElectionResult))
        requires
            old(state)@.starts_round(event) ==> old(state).current_term.0 < u64::MAX,
            saves(old(state)@.after(event).1) && old(store).fail_next_persist is None ==> old(
                store,
            ).persist_count < u64::MAX,
        ensures
            action_views(r.0.actions@) == listed(old(state)@.after(event).1),
            executed(old(state)@, event, *old(store), final(state)@, *final(store), r.1),
    {
        let before = state.clone();
        let batch = ElectionDriver::handle(state, event);
        let ghost (s, a) = old(state)@.after(event);
        let mut result = ElectionResult::empty();
        proof {
            assert(result.pre_vote_requests@ =~= seq![]);
            assert(result.vote_requests@ =~= seq![]);
        }
        if batch.actions.len() == 0 {
            assert(action_views(batch.actions@).len() == 0);
            assert(a == ElectionActionView::NoAction);
            return (batch, result);
        }
        assert(action_views(batch.actions@)[0] == batch.actions@[0]@);
        let must_save = match &batch.actions[0] {
            ElectionAction::PersistAndSendVoteRequests { term, voted_for, requests } => true,
            ElectionAction::PersistAndRespondVote { term, voted_for, response } => true,
            ElectionAction::PersistAndStepDown { new_term } => true,
            ElectionAction::BecomeLeader => true,
            _ => false,
        };
        assert(must_save == saves(a));
        if must_save {
            match store.persist(state.current_term, state.voted_for) {
                Ok(_) => {},
                Err(m) => {
                    *state = before;
                    result.persist_failed = Some(m);
                    return (batch, result);
                },
            }
        }
        match &batch.actions[0] {
            ElectionAction::SendPreVoteRequests(requests) => {
                result.pre_vote_requests = clone_requests(requests);
            },
            ElectionAction::PersistAndSendVoteRequests { term, voted_for, requests } => {
                result.vote_requests = clone_requests(requests);
            },
            ElectionAction::RespondPreVote(response) => {
                result.pre_vote_response = Some(*response);
            },
            ElectionAction::PersistAndRespondVote { term, voted_for, response } => {
                result.vote_response = Some(*response);
            },
            ElectionAction::BecomeLeader => {
                state.role = Role::Leader;
                state.leader_id = Some(state.node_id);
                state.election_phase = ElectionPhase::Idle;
                result.became_leader = true;
            },
            _ => {},
        }
        (batch, result)
    }
}

/// A pre-vote round changes neither term, nor vote, nor role: not of the node
/// that starts it, and not of the node that is asked.
pub proof fn law_pre_vote_changes_nothing(
    s: NodeStateView,
    req: VoteRequest,
    now: u64,
    timeout: u64,
)
    ensures
        ({
            let (p, a) = s.pre_vote_started();
            &&& p.current_term == s.current_term
            &&& p.voted_for == s.voted_for
            &&& p.role == s.role
            &&& !saves(a)
        }),
        req.is_pre_vote ==> s.vote_requested(req, now, timeout).0 == s && !saves(
            s.vote_requested(req, now, timeout).1,
        ),
{
}

/// While a voter holds the lease of its leader it grants no pre-vote, so a
/// node that only reaches such voters stays in its term: without a majority
/// of pre-votes no election starts.
pub proof fn law_lease_blocks_disruption(
    voter: NodeStateView,
    req: VoteRequest,
    now: u64,
    timeout: u64,
    candidate: NodeStateView,
)
    requires
        req.is_pre_vote,
        voter.lease_active(now, timeout),
    ensures
        voter.vote_requested(req, now, timeout).1 == ElectionActionView::RespondPreVote(
            VoteResponse { term: voter.current_term, vote_granted: false, is_pre_vote: true },
        ),
        candidate.pre_votes_received.len() < candidate.majority() ==> candidate.election_started()
            == (candidate, ElectionActionView::NoAction),
{
}

/// Terms never go backwards, whatever the event.
pub proof fn law_terms_never_decrease(s: NodeStateView, event: ElectionEvent)
    requires
        s.starts_round(event) ==> s.current_term.0 < u64::MAX,
    ensures
        s.after(event).0.current_term.0 >= s.current_term.0,
{
}

/// Within one term a vote, once given, is never given to another.
pub proof fn law_votes_are_kept(s: NodeStateView, event: ElectionEvent)
    requires
        s.starts_round(event) ==> s.current_term.0 < u64::MAX,
    ensures
        s.after(event).0.current_term == s.current_term && s.voted_for is Some ==> s.after(
            event,
        ).0.voted_for == s.voted_for,
{
}

/// An election is won only by a candidate with the votes of a majority.
pub proof fn law_leader_has_majority(s: NodeStateView, event: ElectionEvent)
    ensures
        s.after(event).1 == ElectionActionView::BecomeLeader ==> s.after(
            event,
        ).0.votes_received.len() >= s.majority() && s.after(event).0.role == Role::Candidate,
{
}

} // verus!
