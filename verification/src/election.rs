//! Elections: votes, terms, and the first entry of a new leader.
//!
//! Functions that restart the election timer take the new deadline.
use vstd::prelude::*;

use crate::consensus_state::Role;
use crate::io_action::{IoAction, IoActionBatch, IoActionView};
use crate::listener::Listener;
use crate::log_entry::{entry_views, EntryType, LogEntry, LogEntryView};
use crate::node_state::{NodeState, NodeStateView};
use crate::quorum_state::QuorumState;
use crate::rpc::{
    RpcEnvelope, RpcEnvelopeView, RpcPayload, RpcPayloadView, VoteRequest, VoteResponse,
};
use crate::types::{NodeId, Offset, Term};
use crate::voter::{has_voter, VoterView};

verus! {

/// The offset of the last entry, or 0 for an empty log.
pub open spec fn last_offset(log_end_offset: u64) -> u64 {
    if log_end_offset > 0 {
        (log_end_offset - 1) as u64
    } else {
        0
    }
}

/// True if a candidate's log is at least as current as the node's.
pub open spec fn log_current(s: NodeStateView, req: VoteRequest) -> bool {
    ||| req.last_log_term.0 > s.last_log_term.0
    ||| req.last_log_term == s.last_log_term && req.last_log_offset.0 >= last_offset(
        s.log_end_offset,
    )
    ||| s.log_end_offset == 0
}

/// The state after a message of `term` has been seen.
pub open spec fn stepped_down(s: NodeStateView, term: Term, deadline: u64) -> NodeStateView {
    if term.0 > s.current_term.0 {
        s.as_follower(term, None, deadline)
    } else {
        s
    }
}

/// True if a node in this state gives its vote.
pub open spec fn grants_vote(s: NodeStateView, req: VoteRequest) -> bool {
    &&& s.role != Role::Leader
    &&& req.term.0 >= s.current_term.0
    &&& s.voted_for is None || s.voted_for == Some(req.candidate_id)
    &&& log_current(s, req)
}

/// The state after a vote request.
pub open spec fn voted(s: NodeStateView, req: VoteRequest, deadline: u64) -> NodeStateView {
    let d = stepped_down(s, req.term, deadline);
    if grants_vote(d, req) {
        NodeStateView {
            voted_for: Some(req.candidate_id),
            election_deadline: deadline,
            ..d
        }
    } else {
        d
    }
}

/// A message of this node that belongs to no leader's epoch.
pub open spec fn envelope_of(s: NodeStateView, payload: RpcPayloadView) -> RpcEnvelopeView {
    RpcEnvelopeView {
        cluster_id: s.cluster_id,
        leader_epoch: Term(0),
        source: s.node_id,
        payload,
    }
}

/// The answer to a vote request.
pub open spec fn vote_answer(
    s: NodeStateView,
    to: NodeId,
    vote_granted: bool,
    is_pre_vote: bool,
) -> IoActionView {
    IoActionView::SendRpc(
        to,
        envelope_of(
            s,
            RpcPayloadView::VoteResponse(
                VoteResponse { term: s.current_term, vote_granted, is_pre_vote },
            ),
        ),
    )
}

/// What a vote request makes the node do: save the vote if it is given, then
/// answer.
pub open spec fn vote_actions(
    s: NodeStateView,
    req: VoteRequest,
    deadline: u64,
) -> Seq<IoActionView> {
    let d = stepped_down(s, req.term, deadline);
    let v = voted(s, req, deadline);
    if grants_vote(d, req) {
        seq![
            IoActionView::PersistQuorumState(
                QuorumState {
                    current_term: v.current_term,
                    voted_for: v.voted_for,
                    leader_id: v.leader_id,
                    leader_epoch: Term(0),
                    cluster_id: v.cluster_id,
                },
            ),
            vote_answer(v, req.candidate_id, true, false),
        ]
    } else {
        seq![vote_answer(v, req.candidate_id, false, false)]
    }
}

/// True if a node would give its vote; asking changes nothing.
pub open spec fn would_grant(s: NodeStateView, req: VoteRequest) -> bool {
    req.term.0 >= s.current_term.0 && log_current(s, req)
}

/// The vote requests of candidate `s`, one for each voter of the list other
/// than itself.
pub open spec fn vote_requests(s: NodeStateView, voters: Seq<VoterView>) -> Seq<IoActionView>
    decreases voters.len(),
{
    if voters.len() == 0 {
        seq![]
    } else {
        let rest = vote_requests(s, voters.drop_last());
        if voters.last().node_id == s.node_id {
            rest
        } else {
            rest.push(
                IoActionView::SendRpc(
                    voters.last().node_id,
                    envelope_of(
                        s,
                        RpcPayloadView::VoteRequest(
                            VoteRequest {
                                term: s.current_term,
                                candidate_id: s.node_id,
                                last_log_offset: Offset(last_offset(s.log_end_offset)),
                                last_log_term: s.last_log_term,
                                is_pre_vote: false,
                            },
                        ),
                    ),
                ),
            )
        }
    }
}

/// What starting an election makes the node do: save its own vote, then ask
/// the other voters.
pub open spec fn election_actions(s: NodeStateView, deadline: u64) -> Seq<IoActionView> {
    let c = s.as_candidate(deadline);
    seq![
        IoActionView::PersistQuorumState(
            QuorumState {
                current_term: c.current_term,
                voted_for: c.voted_for,
                leader_id: None,
                leader_epoch: Term(0),
                cluster_id: c.cluster_id,
            },
        ),
    ] + vote_requests(c, c.voter_set)
}

/// The first entry of a new leader.
pub open spec fn leader_change_entry(s: NodeStateView) -> LogEntryView {
    LogEntryView {
        offset: s.log_end_offset,
        term: s.current_term,
        entry_type: EntryType::LeaderChangeMessage,
        payload: Seq::empty(),
    }
}

/// The state after the leader appended its first entry.
pub open spec fn with_leader_change(s: NodeStateView) -> NodeStateView {
    NodeStateView {
        log_end_offset: (s.log_end_offset + 1) as u64,
        last_log_term: s.current_term,
        ..s
    }
}

/// The vote is one for this node as a candidate, and from a voter.
pub open spec fn vote_counts(s: NodeStateView, voter: NodeId, resp: VoteResponse) -> bool {
    &&& s.role == Role::Candidate
    &&& resp.term == s.current_term
    &&& !resp.is_pre_vote
    &&& resp.vote_granted
    &&& has_voter(s.voter_set, voter)
}

/// The state after a vote response, and whether the node became leader by it.
pub open spec fn vote_answered(
    s: NodeStateView,
    voter: NodeId,
    resp: VoteResponse,
    now: u64,
    timeout: u64,
) -> (NodeStateView, bool) {
    let counted = NodeStateView { votes_received: s.votes_received.insert(voter.0), ..s };
    if resp.term.0 > s.current_term.0 {
        (stepped_down(s, resp.term, (now + timeout) as u64), false)
    } else if !vote_counts(s, voter, resp) {
        (s, false)
    } else if counted.votes_received.len() >= s.majority() {
        (counted.as_leader(now, timeout), true)
    } else {
        (counted, false)
    }
}

/// The state after a vote was recorded, and whether the votes of a candidate
/// are a majority then.
pub open spec fn vote_recorded(s: NodeStateView, voter: NodeId) -> (NodeStateView, bool) {
    if s.role == Role::Candidate {
        let votes = s.votes_received.insert(voter.0);
        (NodeStateView { votes_received: votes, ..s }, votes.len() >= s.majority())
    } else {
        (s, false)
    }
}

fn last_offset_of(log_end_offset: u64) -> (o: u64)
    ensures
        o == last_offset(log_end_offset),
{
    if log_end_offset > 0 {
        log_end_offset - 1
    } else {
        0
    }
}

fn has_current_log(state: &NodeState, req: &VoteRequest) -> (b: bool)
    ensures
        b == log_current(state@, *req),
{
    req.last_log_term.0 > state.last_log_term.0 || (req.last_log_term == state.last_log_term
        && req.last_log_offset.0 >= last_offset_of(state.log_end_offset)) || state.log_end_offset
        == 0
}

fn envelope(state: &NodeState, payload: RpcPayload) -> (e: RpcEnvelope)
    ensures
        e@ == envelope_of(state@, payload@),
{
    RpcEnvelope {
        cluster_id: state.cluster_id,
        leader_epoch: Term(0),
        source: state.node_id,
        payload,
    }
}

/// Handles election logic: vote requests, vote responses, term management,
/// step-down on a higher term, and the first entry of a new leader.
pub struct ElectionManager;

impl ElectionManager {
    /// Handle receiving a message with a potentially higher term: if it is
    /// higher than the current term, step down to follower. Returns true if a
    /// step-down occurred.
    pub fn maybe_step_down_on_higher_term(
        state: &mut NodeState,
        message_term: Term,
        deadline: u64,
    ) -> (b: bool)
        ensures
            final(state)@ == stepped_down(old(state)@, message_term, deadline),
            b == (message_term.0 > old(state)@.current_term.0),
    {
        if message_term.0 > state.current_term.0 {
            state.become_follower(message_term, None, deadline);
            true
        } else {
            false
        }
    }

    /// Handle election timeout expiry: become a candidate of the next term,
    /// vote for self, and ask all other voters.
    pub fn start_election(state: &mut NodeState, deadline: u64, batch: &mut IoActionBatch)
        requires
            old(state)@.current_term.0 < u64::MAX,
        ensures
            final(state)@ == old(state)@.as_candidate(deadline),
            final(batch)@ == old(batch)@ + election_actions(old(state)@, deadline),
    {
        state.become_candidate(deadline);
        batch.push(
            IoAction::PersistQuorumState(
                QuorumState {
                    current_term: state.current_term,
                    voted_for: state.voted_for,
                    leader_id: None,
                    leader_epoch: Term(0),
                    cluster_id: state.cluster_id,
                },
            ),
        );
        let last_log_offset = Offset(last_offset_of(state.log_end_offset));
        let ghost before = batch@;
        let ghost voters = state@.voter_set;
        let mut i: usize = 0;
        assert(voters.take(0) =~= Seq::<VoterView>::empty());
        while i < state.voter_set.len()
            invariant
                i <= state.voter_set@.len(),
                voters == state@.voter_set,
                last_log_offset == Offset(last_offset(state.log_end_offset)),
                batch@ == before + vote_requests(state@, voters.take(i as int)),
            decreases state.voter_set@.len() - i,
        {
            let voter = state.voter_set[i].node_id;
            proof {
                assert(voters[i as int] == state.voter_set@[i as int]@);
                assert(voters.take(i + 1).drop_last() =~= voters.take(i as int));
                assert(voters.take(i + 1).last() == voters[i as int]);
            }
            if voter != state.node_id {
                let request = VoteRequest {
                    term: state.current_term,
                    candidate_id: state.node_id,
                    last_log_offset,
                    last_log_term: state.last_log_term,
                    is_pre_vote: false,
                };
                let message = envelope(state, RpcPayload::VoteRequest(request));
                batch.push(IoAction::SendRpc(voter, message));
            }
            i = i + 1;
            assert(batch@ =~= before + vote_requests(state@, voters.take(i as int)));
        }
        assert(voters.take(i as int) =~= voters);
        assert(batch@ =~= old(batch)@ + election_actions(old(state)@, deadline));
    }

    /// Handle an incoming request for a vote (not a pre-vote).
    ///
    /// Steps down on a higher term. A leader never votes in its own term; a
    /// vote is given once per term, and only to a candidate whose log is at
    /// least as current. A vote that is given is saved before it is sent.
    pub fn handle_vote_request(
        state: &mut NodeState,
        req: &VoteRequest,
        deadline: u64,
        batch: &mut IoActionBatch,
    )
        requires
            !req.is_pre_vote,
        ensures
            final(state)@ == voted(old(state)@, *req, deadline),
            final(batch)@ == old(batch)@ + vote_actions(old(state)@, *req, deadline),
    {
        Self::maybe_step_down_on_higher_term(state, req.term, deadline);
        let taken = match state.voted_for {
            Some(v) => v != req.candidate_id,
            None => false,
        };
        let vote_granted = if state.role == Role::Leader || req.term.0 < state.current_term.0
            || taken {
            false
        } else {
            has_current_log(state, req)
        };
        if vote_granted {
            state.voted_for = Some(req.candidate_id);
            state.election_deadline = deadline;
            batch.push(
                IoAction::PersistQuorumState(
                    QuorumState {
                        current_term: state.current_term,
                        voted_for: state.voted_for,
                        leader_id: state.leader_id,
                        leader_epoch: Term(0),
                        cluster_id: state.cluster_id,
                    },
                ),
            );
        }
        let answer = envelope(
            state,
            RpcPayload::VoteResponse(
                VoteResponse { term: state.current_term, vote_granted, is_pre_vote: false },
            ),
        );
        batch.push(IoAction::SendRpc(req.candidate_id, answer));
        assert(batch@ =~= old(batch)@ + vote_actions(old(state)@, *req, deadline));
    }

    /// Handle a pre-vote request: answer whether the vote would be given. No
    /// term advancement, no vote, nothing saved.
    pub fn handle_pre_vote_request(
        state: &NodeState,
        req: &VoteRequest,
        batch: &mut IoActionBatch,
    )
        requires
            req.is_pre_vote,
        ensures
            final(batch)@ == old(batch)@.push(
                vote_answer(state@, req.candidate_id, would_grant(state@, *req), true),
            ),
            final(batch)@.last() matches IoActionView::SendRpc(to, m) && {
                &&& to == req.candidate_id
                &&& m.payload matches RpcPayloadView::VoteResponse(resp)
                &&& resp.term == state.current_term
                &&& resp.is_pre_vote
                &&& resp.vote_granted <==> req.term.0 >= state.current_term.0 && (
                state.log_end_offset == 0 || req.last_log_term.0 > state.last_log_term.0 || (
                req.last_log_term == state.last_log_term && req.last_log_offset.0 + 1
                    >= state.log_end_offset))
            },
    {
        let vote_granted = if req.term.0 < state.current_term.0 {
            false
        } else {
            has_current_log(state, req)
        };
        let answer = envelope(
            state,
            RpcPayload::VoteResponse(
                VoteResponse { term: state.current_term, vote_granted, is_pre_vote: true },
            ),
        );
        batch.push(IoAction::SendRpc(req.candidate_id, answer));
    }

    /// Handle an incoming vote response: step down on a higher term, else
    /// count the vote of a voter for this candidate. If that makes a majority,
    /// become leader. Returns true if the node became leader; the caller is
    /// then to append the leader change message.
    pub fn handle_vote_response(
        state: &mut NodeState,
        voter: NodeId,
        resp: &VoteResponse,
        now: u64,
        timeout: u64,
    ) -> (won: bool)
        requires
            now + timeout <= u64::MAX,
        ensures
            (final(state)@, won) == vote_answered(old(state)@, voter, *resp, now, timeout),
    {
        if resp.term.0 > state.current_term.0 {
            state.become_follower(resp.term, None, now + timeout);
            return false;
        }
        if state.role != Role::Candidate || resp.term != state.current_term || resp.is_pre_vote
            || !resp.vote_granted || !state.is_in_voter_set(voter) {
            return false;
        }
        if Self::record_vote(state, voter) {
            state.become_leader(now, timeout);
            true
        } else {
            false
        }
    }

    /// Record a vote from a specific node. Returns true if a majority has been
    /// reached; the caller owns the transition to leader.
    pub fn record_vote(state: &mut NodeState, voter: NodeId) -> (won: bool)
        ensures
            (final(state)@, won) == vote_recorded(old(state)@, voter),
    {
        if state.role != Role::Candidate {
            return false;
        }
        state.votes_received.insert(voter);
        state.votes_received.len() >= state.majority()
    }

    /// Append a leader change message when a new leader is elected. It
    /// establishes commit state for the new term.
    pub fn append_leader_change_message(
        state: &mut NodeState,
        batch: &mut IoActionBatch,
    ) -> (entry: LogEntry)
        requires
            old(state)@.log_end_offset < u64::MAX,
        ensures
            entry@ == leader_change_entry(old(state)@),
            final(state)@ == with_leader_change(old(state)@),
            final(batch)@ == old(batch)@.push(
                IoActionView::AppendLog(seq![leader_change_entry(old(state)@)]),
            ),
    {
        let entry = LogEntry::leader_change(state.log_end_offset, state.current_term);
        state.log_end_offset = state.log_end_offset + 1;
        let term = state.current_term;
        state.update_last_log_term(term);
        let mut entries: Vec<LogEntry> = Vec::new();
        entries.push(entry.clone());
        assert(entry_views(entries@) =~= seq![leader_change_entry(old(state)@)]);
        batch.push(IoAction::AppendLog(entries));
        entry
    }

    /// Notify the listener of a leadership change.
    pub fn notify_leader_change<L: Listener>(listener: &mut L, leader_id: NodeId, term: Term)
        ensures
            old(listener).leader_change_step(leader_id, term, final(listener)),
    {
        listener.handle_leader_change(leader_id, term);
    }
}

/// Terms never go backwards, and within one term a vote, once given, is never
/// given to another candidate.
pub proof fn law_one_vote_per_term(s: NodeStateView, req: VoteRequest, deadline: u64)
    ensures
        voted(s, req, deadline).current_term.0 >= s.current_term.0,
        voted(s, req, deadline).current_term == s.current_term && s.voted_for is Some ==> voted(
            s,
            req,
            deadline,
        ).voted_for == s.voted_for,
{
}

/// A node never grants two candidates its vote in one term, whatever other
/// requests it handled in between. Each request comes with the election
/// deadline that its handling draws.
pub proof fn law_no_second_grant(
    s: NodeStateView,
    first: (VoteRequest, u64),
    between: Seq<(VoteRequest, u64)>,
    second: (VoteRequest, u64),
)
    requires
        first.0.term == second.0.term,
        first.0.candidate_id != second.0.candidate_id,
        grants_vote(stepped_down(s, first.0.term, first.1), first.0),
    ensures
        ({
            let later = voted_all(voted(s, first.0, first.1), between);
            !grants_vote(stepped_down(later, second.0.term, second.1), second.0)
        }),
{
    lemma_vote_kept(voted(s, first.0, first.1), between);
}

/// The state after a series of vote requests, each with its deadline.
pub open spec fn voted_all(s: NodeStateView, requests: Seq<(VoteRequest, u64)>) -> NodeStateView
    decreases requests.len(),
{
    if requests.len() == 0 {
        s
    } else {
        voted(voted_all(s, requests.drop_last()), requests.last().0, requests.last().1)
    }
}

proof fn lemma_vote_kept(s: NodeStateView, requests: Seq<(VoteRequest, u64)>)
    requires
        s.voted_for is Some,
    ensures
        voted_all(s, requests).current_term.0 >= s.current_term.0,
        voted_all(s, requests).current_term == s.current_term ==> voted_all(
            s,
            requests,
        ).voted_for == s.voted_for,
    decreases requests.len(),
{
    if requests.len() > 0 {
        lemma_vote_kept(s, requests.drop_last());
        law_one_vote_per_term(
            voted_all(s, requests.drop_last()),
            requests.last().0,
            requests.last().1,
        );
    }
}

/// Two majorities of one voter set have a voter in common.
pub proof fn law_majorities_intersect(voters: Set<u64>, a: Set<u64>, b: Set<u64>)
    requires
        voters.finite(),
        a.subset_of(voters),
        b.subset_of(voters),
        a.len() >= crate::node_state::majority_of(voters.len()),
        b.len() >= crate::node_state::majority_of(voters.len()),
    ensures
        exists|v: u64| a.contains(v) && #[trigger] b.contains(v),
{
    vstd::set_lib::lemma_len_subset(a, voters);
    vstd::set_lib::lemma_len_subset(b, voters);
    if a.disjoint(b) {
        vstd::set_lib::lemma_set_disjoint_lens(a, b);
        vstd::set_lib::lemma_len_subset(a + b, voters);
        assert(false);
    } else {
        let v = choose|v: u64| a.contains(v) && b.contains(v);
        assert(b.contains(v));
    }
}

/// No term has two leaders: where each voter gave at most one candidate its
/// vote, two candidates with the votes of a majority are the same.
pub proof fn law_one_leader_per_term(
    voters: Set<u64>,
    vote_of: Map<u64, NodeId>,
    a: NodeId,
    votes_for_a: Set<u64>,
    b: NodeId,
    votes_for_b: Set<u64>,
)
    requires
        voters.finite(),
        votes_for_a.subset_of(voters),
        votes_for_b.subset_of(voters),
        forall|v: u64| #[trigger]
            votes_for_a.contains(v) ==> vote_of.contains_key(v) && vote_of[v] == a,
        forall|v: u64| #[trigger]
            votes_for_b.contains(v) ==> vote_of.contains_key(v) && vote_of[v] == b,
        votes_for_a.len() >= crate::node_state::majority_of(voters.len()),
        votes_for_b.len() >= crate::node_state::majority_of(voters.len()),
    ensures
        a == b,
{
    law_majorities_intersect(voters, votes_for_a, votes_for_b);
    let v = choose|v: u64| votes_for_a.contains(v) && #[trigger] votes_for_b.contains(v);
    assert(vote_of[v] == a && vote_of[v] == b);
}

} // verus!
