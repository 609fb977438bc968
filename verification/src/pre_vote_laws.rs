//! What elections with a pre-vote round promise.
use vstd::prelude::*;

use crate::consensus_state::Role;
use crate::node_state_laws::law_majority_is_least;
use crate::pre_vote::{
    executed, listed, requests_to, ElectionActionView, ElectionEvent, ElectionPhase,
    ElectionResult, FetchResponse, InMemoryQuorumStateStore, NodeStateView,
};
use crate::rpc::{VoteRequest, VoteResponse};
use crate::types::{NodeId, Term};
use crate::voter::{has_voter, VoterView};

verus! {

/// Identity, voters and log are the same.
pub open spec fn same_node(s: NodeStateView, t: NodeStateView) -> bool {
    &&& t.node_id == s.node_id
    &&& t.cluster_id == s.cluster_id
    &&& t.voter_set == s.voter_set
    &&& t.log_end_offset == s.log_end_offset
    &&& t.last_log_term == s.last_log_term
}

/// A candidate's log counts as current exactly if its last entry is of a later
/// term than the node's, or of the same term with a log that is no shorter.
pub proof fn law_log_order(s: NodeStateView, req: VoteRequest)
    ensures
        s.log_current(req) <==> {
            &&& s.last_log_term.0 <= req.last_log_term.0
            &&& s.last_log_term.0 == req.last_log_term.0 ==> s.log_end_offset.0
                <= req.last_log_offset.0
        },
{
}

/// A lease holds exactly while the leader, a voter, was heard of in the current
/// term less than a timeout ago.
pub proof fn law_lease(s: NodeStateView, now: u64, timeout: u64)
    ensures
        s.lease_active(now, timeout) <==> {
            &&& s.leader_id is Some && has_voter(s.voter_set, s.leader_id->0)
            &&& s.last_leader_term is Some && s.last_leader_term->0 == s.current_term
            &&& s.last_leader_contact_ms is Some && now - s.last_leader_contact_ms->0 < timeout
        },
{
}

/// A node that hears of a leader among its voters holds its lease for exactly
/// the timeout from then on.
pub proof fn law_contact_starts_lease(
    s: NodeStateView,
    at: u64,
    leader: NodeId,
    now: u64,
    timeout: u64,
)
    requires
        has_voter(s.voter_set, leader),
    ensures
        s.with_contact(at, leader, s.current_term).lease_active(now, timeout) <==> now - at
            < timeout,
        s.with_contact(at, leader, s.current_term).leader_id == Some(leader),
        same_node(s, s.with_contact(at, leader, s.current_term)),
{
}

/// A pre-vote changes nothing and is granted exactly if the request is not
/// stale, the candidate's log is no older, and no lease of a leader holds.
pub proof fn law_pre_vote_answer(s: NodeStateView, req: VoteRequest, now: u64, timeout: u64)
    requires
        req.is_pre_vote,
    ensures
        s.vote_requested(req, now, timeout).0 == s,
        s.vote_requested(req, now, timeout).1 matches ElectionActionView::RespondPreVote(resp) && {
            &&& resp.term == s.current_term
            &&& resp.is_pre_vote
            &&& resp.vote_granted <==> {
                &&& req.term.0 >= s.current_term.0
                &&& s.last_log_term.0 <= req.last_log_term.0
                &&& s.last_log_term.0 == req.last_log_term.0 ==> s.log_end_offset.0
                    <= req.last_log_offset.0
                &&& !s.lease_active(now, timeout)
            }
        },
{
}

/// A vote is given exactly if it is free in the term of the request, the node
/// does not lead that term, and the candidate's log is no older. Term and vote
/// are saved with the answer, which names the later of the two terms.
pub proof fn law_vote_answer(s: NodeStateView, req: VoteRequest, now: u64, timeout: u64)
    requires
        !req.is_pre_vote,
    ensures
        ({
            let (after, a) = s.vote_requested(req, now, timeout);
            let fresh = req.term.0 > s.current_term.0;
            &&& after.current_term == (if fresh {
                req.term
            } else {
                s.current_term
            })
            &&& a matches ElectionActionView::PersistAndRespondVote {
                term,
                voted_for,
                response,
            } && {
                &&& term == after.current_term
                &&& voted_for == after.voted_for
                &&& response.term == after.current_term
                &&& !response.is_pre_vote
                &&& response.vote_granted <==> {
                    &&& fresh || (req.term == s.current_term && s.role != Role::Leader && (
                    s.voted_for is None || s.voted_for == Some(req.candidate_id)))
                    &&& s.last_log_term.0 <= req.last_log_term.0
                    &&& s.last_log_term.0 == req.last_log_term.0 ==> s.log_end_offset.0
                        <= req.last_log_offset.0
                }
                &&& response.vote_granted ==> after.voted_for == Some(req.candidate_id)
                &&& !response.vote_granted ==> after.voted_for == (if fresh {
                    None
                } else {
                    s.voted_for
                })
            }
            &&& fresh ==> after.role == Role::Follower && after.leader_id is None
                && after.election_phase == ElectionPhase::Idle
            &&& !fresh ==> after == (NodeStateView { voted_for: after.voted_for, ..s })
            &&& after == (NodeStateView {
                current_term: after.current_term,
                voted_for: after.voted_for,
                role: after.role,
                leader_id: after.leader_id,
                election_phase: after.election_phase,
                pre_vote_term: after.pre_vote_term,
                pre_votes_received: after.pre_votes_received,
                votes_received: after.votes_received,
                ..s
            })
        }),
{
}

/// A pre-vote tells what a vote would be: where it is granted, the same request
/// in earnest gets the vote of a node that has it free and does not lead; where
/// it is denied although no lease holds, the vote is denied too.
pub proof fn law_pre_vote_predicts_vote(s: NodeStateView, req: VoteRequest, now: u64, timeout: u64)
    requires
        req.is_pre_vote,
    ensures
        ({
            let earnest = VoteRequest { is_pre_vote: false, ..req };
            let after = s.vote_requested(earnest, now, timeout).0;
            &&& s.grants_pre_vote(req, now, timeout) && (req.term.0 > s.current_term.0 || (
            s.voted_for is None && s.role != Role::Leader)) ==> after.voted_for == Some(
                req.candidate_id,
            ) && after.current_term == req.term
            &&& !s.grants_pre_vote(req, now, timeout) && !s.lease_active(now, timeout) && !(
            s.voted_for == Some(req.candidate_id)) ==> after.voted_for != Some(req.candidate_id)
        }),
{
}

/// Each voter but the sender is written to, with the same request, and no one
/// else.
pub proof fn law_requests_go_to_others(
    voters: Seq<VoterView>,
    sender: NodeId,
    request: VoteRequest,
)
    ensures
        forall|m: (NodeId, VoteRequest)| #[trigger]
            requests_to(voters, sender, request).contains(m) <==> m.1 == request && m.0 != sender
                && has_voter(voters, m.0),
        requests_to(voters, sender, request).len() == voters.filter(
            |v: VoterView| v.node_id != sender,
        ).len(),
    decreases voters.len(),
{
    reveal(Seq::filter);
    let all = requests_to(voters, sender, request);
    if voters.len() == 0 {
        assert(all =~= seq![]);
    } else {
        let rest = voters.drop_last();
        let last = voters.last();
        law_requests_go_to_others(rest, sender, request);
        let before = requests_to(rest, sender, request);
        if last.node_id != sender {
            assert(all =~= before.push((last.node_id, request)));
        } else {
            assert(all =~= before);
        }
        assert forall|m: (NodeId, VoteRequest)| #[trigger] all.contains(m) <==> m.1 == request
            && m.0 != sender && has_voter(voters, m.0) by {
            if before.contains(m) {
                let k = choose|k: int| 0 <= k < before.len() && before[k] == m;
                assert(all[k] == m);
            }
            if has_voter(rest, m.0) {
                let k = choose|k: int| 0 <= k < rest.len() && #[trigger] rest[k].node_id == m.0;
                assert(voters[k].node_id == m.0);
            }
            if has_voter(voters, m.0) {
                let k = choose|k: int|
                    0 <= k < voters.len() && #[trigger] voters[k].node_id == m.0;
                if k < rest.len() {
                    assert(rest[k].node_id == m.0);
                }
            }
            if m.0 == last.node_id {
                assert(voters[voters.len() - 1].node_id == m.0);
                if m.0 != sender && m.1 == request {
                    assert(all[before.len() as int] == m);
                }
            }
            if all.contains(m) {
                let k = choose|k: int| 0 <= k < all.len() && all[k] == m;
                if k < before.len() {
                    assert(before[k] == m);
                    assert(before.contains(m));
                }
            }
        }
    }
}

/// The request of a node asks in its own name and tells the end of its own log:
/// a voter with the same log, or an older one, and a free vote grants it.
pub proof fn law_request_tells_own_log(
    c: NodeStateView,
    term: Term,
    voter: NodeStateView,
    now: u64,
    timeout: u64,
)
    requires
        voter.current_term.0 < term.0,
    ensures
        c.request(term, true).candidate_id == c.node_id,
        c.request(term, true).term == term && c.request(term, false).term == term,
        c.request(term, true).is_pre_vote && !c.request(term, false).is_pre_vote,
        c.request(term, false) == (VoteRequest { is_pre_vote: false, ..c.request(term, true) }),
        voter.vote_requested(c.request(term, false), now, timeout).0.voted_for == Some(c.node_id)
            <==> voter.last_log_term.0 < c.last_log_term.0 || (voter.last_log_term
            == c.last_log_term && voter.log_end_offset.0 <= c.log_end_offset.0),
        !voter.lease_active(now, timeout) ==> (voter.grants_pre_vote(
            c.request(term, true),
            now,
            timeout,
        ) <==> voter.last_log_term.0 < c.last_log_term.0 || (voter.last_log_term
            == c.last_log_term && voter.log_end_offset.0 <= c.log_end_offset.0)),
{
}

/// A voter starts a pre-vote round about the next term with its own pre-vote: it
/// asks each other voter, or goes on at once where its own is more than half. A
/// node that is no voter does nothing. Term, vote and role stay.
pub proof fn law_pre_vote_round(s: NodeStateView)
    requires
        s.current_term.0 < u64::MAX,
    ensures
        ({
            let (p, a) = s.pre_vote_started();
            let voter = has_voter(s.voter_set, s.node_id);
            &&& !voter ==> p == s && a == ElectionActionView::NoAction
            &&& voter ==> {
                &&& p.election_phase == ElectionPhase::PreVote
                &&& p.pre_vote_term matches Some(t) && t.0 == s.current_term.0 + 1
                &&& forall|id: u64| #[trigger]
                    p.pre_votes_received.contains(id) <==> id == s.node_id.0
                &&& p.pre_votes_received.len() == 1
                &&& s.voter_set.len() == 1 ==> a == ElectionActionView::StartRealElection
                &&& s.voter_set.len() > 1 ==> (a matches ElectionActionView::SendPreVoteRequests(
                    requests,
                ) && (forall|to: NodeId, req: VoteRequest| #[trigger]
                    requests.contains((to, req)) <==> to != s.node_id && has_voter(
                        s.voter_set,
                        to,
                    ) && req.is_pre_vote && req.term.0 == s.current_term.0 + 1 && req.candidate_id
                        == s.node_id && req.last_log_offset == s.log_end_offset
                        && req.last_log_term == s.last_log_term))
            }
            &&& p == (NodeStateView {
                election_phase: p.election_phase,
                pre_vote_term: p.pre_vote_term,
                pre_votes_received: p.pre_votes_received,
                ..s
            })
        }),
{
    law_majority_is_least(s.voter_set.len());
    law_requests_go_to_others(
        s.voter_set,
        s.node_id,
        s.request(Term((s.current_term.0 + 1) as u64), true),
    );
    if has_voter(s.voter_set, s.node_id) {
        let p = s.pre_vote_started().0;
        assert(p.pre_votes_received =~= set![s.node_id.0]);
    }
}

/// An election starts exactly after a pre-vote round in which more than half of
/// the voters agreed. The node stands for the next term with its own vote, which
/// is saved, and asks each other voter; it wins at once where it is the only
/// one.
pub proof fn law_election_needs_pre_votes(s: NodeStateView)
    requires
        s.current_term.0 < u64::MAX,
    ensures
        ({
            let (c, a) = s.election_started();
            let may = s.election_phase == ElectionPhase::PreVote && 2
                * s.pre_votes_received.len() > s.voter_set.len();
            &&& !may ==> c == s && a == ElectionActionView::NoAction
            &&& may ==> {
                &&& c.current_term.0 == s.current_term.0 + 1
                &&& c.voted_for == Some(s.node_id)
                &&& c.role == Role::Candidate
                &&& c.leader_id is None
                &&& c.election_phase == ElectionPhase::Election
                &&& c.pre_vote_term is None
                &&& forall|id: u64| #[trigger]
                    c.votes_received.contains(id) <==> id == s.node_id.0
                &&& s.voter_set.len() <= 1 ==> a == ElectionActionView::BecomeLeader
                &&& s.voter_set.len() > 1 ==> (a matches
                    ElectionActionView::PersistAndSendVoteRequests {
                    term,
                    voted_for,
                    requests,
                } && term == c.current_term && voted_for == s.node_id && (forall|
                    to: NodeId,
                    req: VoteRequest,
                | #[trigger]
                    requests.contains((to, req)) <==> to != s.node_id && has_voter(
                        s.voter_set,
                        to,
                    ) && !req.is_pre_vote && req.term == c.current_term && req.candidate_id
                        == s.node_id && req.last_log_offset == s.log_end_offset
                        && req.last_log_term == s.last_log_term))
            }
            &&& c == (NodeStateView {
                current_term: c.current_term,
                voted_for: c.voted_for,
                role: c.role,
                leader_id: c.leader_id,
                election_phase: c.election_phase,
                pre_vote_term: c.pre_vote_term,
                pre_votes_received: c.pre_votes_received,
                votes_received: c.votes_received,
                ..s
            })
        }),
{
    law_majority_is_least(s.voter_set.len());
    let c = s.in_election();
    law_requests_go_to_others(s.voter_set, s.node_id, c.request(c.current_term, false));
    assert(c.votes_received =~= set![s.node_id.0]);
}

/// Responses: only voters count. A later term is adopted, without a vote. A
/// granted pre-vote counts in a pre-vote round, and a granted vote in an
/// election, each of this term; more than half of the voters move the node on,
/// and everything else changes nothing.
pub proof fn law_responses_are_counted(s: NodeStateView, from: NodeId, resp: VoteResponse)
    ensures
        ({
            let (after, a) = s.vote_answered(from, resp);
            let known = has_voter(s.voter_set, from);
            let newer = resp.term.0 > s.current_term.0;
            let granted = known && resp.term == s.current_term && resp.vote_granted;
            let pre = granted && resp.is_pre_vote && s.election_phase == ElectionPhase::PreVote;
            let vote = granted && !resp.is_pre_vote && s.election_phase == ElectionPhase::Election
                && s.role == Role::Candidate;
            let pre_votes = s.pre_votes_received.insert(from.0);
            let votes = s.votes_received.insert(from.0);
            &&& a == ElectionActionView::StartRealElection <==> pre && 2 * pre_votes.len()
                > s.voter_set.len()
            &&& a == ElectionActionView::BecomeLeader <==> vote && 2 * votes.len()
                > s.voter_set.len()
            &&& pre ==> after == (NodeStateView { pre_votes_received: pre_votes, ..s })
            &&& vote ==> after == (NodeStateView { votes_received: votes, ..s })
            &&& known && newer ==> a == (ElectionActionView::PersistAndStepDown {
                new_term: resp.term,
            }) && after.current_term == resp.term && after.voted_for is None && after.role
                == Role::Follower && after.leader_id is None && after.election_phase
                == ElectionPhase::Idle
            &&& !pre && !vote && !(known && newer) ==> after == s && a
                == ElectionActionView::NoAction
            &&& after == (NodeStateView {
                current_term: after.current_term,
                voted_for: after.voted_for,
                role: after.role,
                leader_id: after.leader_id,
                election_phase: after.election_phase,
                pre_vote_term: after.pre_vote_term,
                pre_votes_received: after.pre_votes_received,
                votes_received: after.votes_received,
                ..s
            })
        }),
{
    law_majority_is_least(s.voter_set.len());
}

/// A fetch response shows a leader: one of a later term is followed in that
/// term, without a vote; one of this term ends an election of it, and the vote
/// stays; an earlier one, and any to a leader of this term, is passed over. The
/// leader that is followed is on record with the time.
pub proof fn law_leader_is_followed(s: NodeStateView, response: FetchResponse, now: u64)
    ensures
        ({
            let (after, a) = s.leader_heard(response, now);
            let newer = response.term.0 > s.current_term.0;
            let same = response.term == s.current_term && s.role != Role::Leader;
            &&& newer ==> a == (ElectionActionView::PersistAndStepDown {
                new_term: response.term,
            }) && after.current_term == response.term && after.voted_for is None
            &&& same ==> a == ElectionActionView::NoAction && after.current_term == s.current_term
                && after.voted_for == s.voted_for
            &&& newer || same ==> {
                &&& after.role == Role::Follower
                &&& after.leader_id == Some(response.leader_id)
                &&& after.last_leader_contact_ms == Some(now)
                &&& after.last_leader_term == Some(response.term)
                &&& after.election_phase == ElectionPhase::Idle
                &&& after.pre_vote_term is None
                &&& after.votes_received =~= Set::<u64>::empty()
                &&& after.pre_votes_received =~= Set::<u64>::empty()
            }
            &&& !newer && !same ==> after == s && a == ElectionActionView::NoAction
            &&& same_node(s, after)
        }),
{
}

/// Term and vote are saved before anything that depends on them is sent: what
/// the store holds after an event that changes or answers with them is what the
/// node has. Where saving fails, the node is as before and nothing is sent; the
/// batch of an event holds at most one action, and never one to do nothing.
pub proof fn law_saved_before_sent(
    before: NodeStateView,
    event: ElectionEvent,
    store_before: InMemoryQuorumStateStore,
    after: NodeStateView,
    store_after: InMemoryQuorumStateStore,
    result: ElectionResult,
)
    requires
        executed(before, event, store_before, after, store_after, result),
    ensures
        result.vote_response is Some || result.vote_requests@.len() > 0 || result.became_leader
            ==> {
            &&& store_before.fail_next_persist is None
            &&& store_after.current_term == after.current_term
            &&& store_after.voted_for == after.voted_for
            &&& store_after.persist_count == store_before.persist_count + 1
        },
        after.current_term != before.current_term || after.voted_for != before.voted_for ==> {
            &&& store_after.current_term == after.current_term
            &&& store_after.voted_for == after.voted_for
        },
        result.persist_failed is Some ==> {
            &&& after == before
            &&& result.vote_response is None && result.pre_vote_response is None
            &&& result.vote_requests@.len() == 0 && result.pre_vote_requests@.len() == 0
            &&& !result.became_leader
            &&& store_after.current_term == store_before.current_term
            &&& store_after.voted_for == store_before.voted_for
        },
        result.pre_vote_response is Some || result.pre_vote_requests@.len() > 0 ==> store_after
            == store_before && after.current_term == before.current_term && after.voted_for
            == before.voted_for,
        result.became_leader ==> after.role == Role::Leader && after.leader_id == Some(
            after.node_id,
        ) && after.election_phase == ElectionPhase::Idle,
        listed(before.after(event).1).len() <= 1,
        !listed(before.after(event).1).contains(ElectionActionView::NoAction),
{
}

/// Where nothing fails, what is sent is what the event asks for.
pub proof fn law_result_carries_action(
    before: NodeStateView,
    event: ElectionEvent,
    store_before: InMemoryQuorumStateStore,
    after: NodeStateView,
    store_after: InMemoryQuorumStateStore,
    result: ElectionResult,
)
    requires
        executed(before, event, store_before, after, store_after, result),
        store_before.fail_next_persist is None,
    ensures
        ({
            let (s, a) = before.after(event);
            &&& result.persist_failed is None
            &&& a matches ElectionActionView::SendPreVoteRequests(r)
                ==> result.pre_vote_requests@ == r
            &&& a matches ElectionActionView::PersistAndSendVoteRequests {
                term,
                voted_for,
                requests,
            } ==> result.vote_requests@ == requests
            &&& a matches ElectionActionView::RespondPreVote(r) ==> result.pre_vote_response
                == Some(r)
            &&& a matches ElectionActionView::PersistAndRespondVote { term, voted_for, response }
                ==> result.vote_response == Some(response)
            &&& result.became_leader <==> a == ElectionActionView::BecomeLeader
            &&& !(a is SendPreVoteRequests) ==> result.pre_vote_requests@.len() == 0
            &&& !(a is PersistAndSendVoteRequests) ==> result.vote_requests@.len() == 0
            &&& !(a is RespondPreVote) ==> result.pre_vote_response is None
            &&& !(a is PersistAndRespondVote) ==> result.vote_response is None
            &&& a != ElectionActionView::BecomeLeader ==> after == s
            &&& same_node(s, after) && after.current_term == s.current_term && after.voted_for
                == s.voted_for && after.votes_received == s.votes_received
        }),
{
}

/// Each event is handled by its own rule, and a pre-vote round that succeeds
/// goes on to the election at once.
pub proof fn law_events_are_dispatched(
    s: NodeStateView,
    request: VoteRequest,
    from: NodeId,
    response: VoteResponse,
    fetched: FetchResponse,
    now: u64,
    timeout: u64,
)
    ensures
        s.after(
            ElectionEvent::VoteRequestReceived {
                request,
                now_ms: now,
                election_timeout_ms: timeout,
            },
        ) == s.vote_requested(request, now, timeout),
        s.after(ElectionEvent::FetchResponseReceived { response: fetched, now_ms: now })
            == s.leader_heard(fetched, now),
        ({
            let (t, a) = s.vote_answered(from, response);
            s.after(ElectionEvent::VoteResponseReceived { from, response }) == (if a
                == ElectionActionView::StartRealElection {
                t.election_started()
            } else {
                (t, a)
            })
        }),
        ({
            let (t, a) = s.pre_vote_started();
            s.after(ElectionEvent::ElectionTimeout) == (if a
                == ElectionActionView::StartRealElection {
                t.election_started()
            } else {
                (t, a)
            })
        }),
{
}

} // verus!
