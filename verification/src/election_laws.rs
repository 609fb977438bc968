//! What elections promise: who is asked, who gets a vote, and who wins.
use vstd::prelude::*;

use crate::consensus_state::Role;
use crate::election::{
    election_actions, grants_vote, leader_change_entry, log_current, stepped_down,
    vote_actions, vote_answer, vote_answered, vote_recorded, vote_requests, voted,
    with_leader_change, would_grant,
};
use crate::io_action::IoActionView;
use crate::log_entry::EntryType;
use crate::node_state::NodeStateView;
use crate::node_state_laws::{keeps_log, law_majority_is_least};
use crate::rpc::{RpcPayloadView, VoteRequest, VoteResponse};
use crate::types::{NodeId, Term};
use crate::voter::{has_voter, VoterView};

verus! {

/// A node counts a candidate's log as current exactly if its own log is empty,
/// or the candidate's last entry is of a later term, or of the same term and no
/// earlier offset.
pub proof fn law_log_order(s: NodeStateView, req: VoteRequest)
    ensures
        log_current(s, req) <==> {
            ||| s.log_end_offset == 0
            ||| s.last_log_term.0 < req.last_log_term.0
            ||| s.last_log_term.0 == req.last_log_term.0 && s.log_end_offset - 1
                <= req.last_log_offset.0
        },
{
}

/// The answer to a vote request, from the state before it: the vote is given
/// exactly if it is free in the term of the request, the node does not lead
/// that term, the request is not stale, and the candidate's log is no older. A
/// vote that is given is saved, with its term, before the answer is sent; the
/// answer goes to the candidate and names the term that the node is in then.
pub proof fn law_vote_answer(s: NodeStateView, req: VoteRequest, deadline: u64)
    ensures
        ({
            let after = voted(s, req, deadline);
            let actions = vote_actions(s, req, deadline);
            let fresh = req.term.0 > s.current_term.0;
            &&& actions.len() > 0
            &&& actions.last() matches IoActionView::SendRpc(to, m) && {
                &&& to == req.candidate_id
                &&& m.source == s.node_id
                &&& m.cluster_id == s.cluster_id
                &&& m.payload matches RpcPayloadView::VoteResponse(resp) && {
                    &&& !resp.is_pre_vote
                    &&& resp.term == after.current_term
                    &&& resp.vote_granted <==> {
                        &&& fresh || {
                            &&& req.term == s.current_term
                            &&& s.role != Role::Leader
                            &&& s.voted_for is None || s.voted_for == Some(req.candidate_id)
                        }
                        &&& {
                            ||| s.log_end_offset == 0
                            ||| s.last_log_term.0 < req.last_log_term.0
                            ||| s.last_log_term.0 == req.last_log_term.0 && s.log_end_offset
                                - 1 <= req.last_log_offset.0
                        }
                    }
                    &&& resp.vote_granted ==> {
                        &&& after.voted_for == Some(req.candidate_id)
                        &&& after.current_term == req.term
                        &&& after.role != Role::Leader
                        &&& after.election_deadline == deadline
                        &&& actions.len() == 2
                        &&& actions[0] matches IoActionView::PersistQuorumState(q)
                            && q.current_term == req.term && q.voted_for == Some(
                            req.candidate_id,
                        ) && q.cluster_id == s.cluster_id && q.leader_id == after.leader_id
                    }
                    &&& !resp.vote_granted ==> {
                        &&& actions.len() == 1
                        &&& after.voted_for == (if fresh {
                            None
                        } else {
                            s.voted_for
                        })
                    }
                }
            }
            &&& after.current_term.0 == (if fresh {
                req.term.0
            } else {
                s.current_term.0
            })
            &&& fresh ==> after.role == Role::Follower && after.leader_id is None
            &&& !fresh ==> after == (NodeStateView {
                voted_for: after.voted_for,
                election_deadline: after.election_deadline,
                ..s
            })
            &&& keeps_log(s, after)
        }),
{
}

/// A pre-vote tells what a vote would be: a node that grants the pre-vote gives
/// its vote to the same request in earnest, where that vote is still free and
/// the node does not lead the term; one that denies the pre-vote denies the
/// vote. Of the candidate's log the same is asked.
pub proof fn law_pre_vote_predicts_vote(s: NodeStateView, req: VoteRequest, deadline: u64)
    ensures
        ({
            let earnest = VoteRequest { is_pre_vote: false, ..req };
            let after = voted(s, earnest, deadline);
            &&& would_grant(s, req) && (req.term.0 > s.current_term.0 || (s.voted_for is None
                && s.role != Role::Leader)) ==> after.voted_for == Some(req.candidate_id)
                && after.current_term == req.term && vote_actions(s, earnest, deadline).len() == 2
            &&& !would_grant(s, req) ==> !grants_vote(stepped_down(s, req.term, deadline), earnest)
                && vote_actions(s, earnest, deadline).len() == 1
        }),
        would_grant(s, req) <==> {
            &&& req.term.0 >= s.current_term.0
            &&& {
                ||| s.log_end_offset == 0
                ||| s.last_log_term.0 < req.last_log_term.0
                ||| s.last_log_term.0 == req.last_log_term.0 && s.log_end_offset - 1
                    <= req.last_log_offset.0
            }
        },
{
}

/// The answer to a vote or pre-vote request goes to the candidate, in the
/// node's own name and term, and says what it is an answer to.
pub proof fn law_answer_carries_decision(
    s: NodeStateView,
    to: NodeId,
    vote_granted: bool,
    is_pre_vote: bool,
)
    ensures
        vote_answer(s, to, vote_granted, is_pre_vote) matches IoActionView::SendRpc(n, m) && n
            == to && m.cluster_id == s.cluster_id && m.source == s.node_id && m.payload
            == RpcPayloadView::VoteResponse(
            VoteResponse { term: s.current_term, vote_granted, is_pre_vote },
        ),
{
}

/// A candidate asks each voter but itself, and nobody else, for a vote in its
/// own term and name, and tells where its log ends.
pub proof fn law_every_voter_is_asked(c: NodeStateView, voters: Seq<VoterView>)
    ensures
        ({
            let sent = vote_requests(c, voters);
            &&& sent.len() == voters.filter(|v: VoterView| v.node_id != c.node_id).len()
            &&& forall|i: int|
                0 <= i < voters.len() && (#[trigger] voters[i]).node_id != c.node_id
                    ==> exists|k: int|
                    0 <= k < sent.len() && #[trigger] asks(sent[k], voters[i].node_id, c)
            &&& forall|k: int|
                0 <= k < sent.len() ==> (#[trigger] sent[k] matches IoActionView::SendRpc(to, m)
                    && to != c.node_id && has_voter(voters, to) && asks(sent[k], to, c))
        }),
    decreases voters.len(),
{
    reveal(Seq::filter);
    let sent = vote_requests(c, voters);
    if voters.len() > 0 {
        let rest = voters.drop_last();
        law_every_voter_is_asked(c, rest);
        let before = vote_requests(c, rest);
        assert forall|i: int|
            0 <= i < voters.len() && (#[trigger] voters[i]).node_id != c.node_id implies exists|
            k: int,
        |
            0 <= k < sent.len() && #[trigger] asks(sent[k], voters[i].node_id, c) by {
            if i < rest.len() {
                assert(rest[i].node_id != c.node_id);
                let k = choose|k: int|
                    0 <= k < before.len() && #[trigger] asks(before[k], rest[i].node_id, c);
                assert(sent[k] == before[k]);
                assert(asks(sent[k], voters[i].node_id, c));
            } else {
                assert(asks(sent[before.len() as int], voters[i].node_id, c));
            }
        }
        assert forall|k: int| 0 <= k < sent.len() implies (#[trigger] sent[k] matches
            IoActionView::SendRpc(to, m) && to != c.node_id && has_voter(voters, to) && asks(
            sent[k],
            to,
            c,
        )) by {
            if k < before.len() {
                assert(sent[k] == before[k]);
                let to = before[k]->SendRpc_0;
                let i = choose|i: int| 0 <= i < rest.len() && #[trigger] rest[i].node_id == to;
                assert(voters[i].node_id == to);
            } else {
                assert(voters[voters.len() - 1].node_id == voters.last().node_id);
            }
        }
    }
}

/// The action asks `to` for a vote in the term of `c`, with the end of its log.
pub open spec fn asks(action: IoActionView, to: NodeId, c: NodeStateView) -> bool {
    action matches IoActionView::SendRpc(n, m) && {
        &&& n == to
        &&& m.source == c.node_id
        &&& m.cluster_id == c.cluster_id
        &&& m.payload matches RpcPayloadView::VoteRequest(req)
        &&& req.term == c.current_term
        &&& req.candidate_id == c.node_id
        &&& !req.is_pre_vote
        &&& req.last_log_term == c.last_log_term
        &&& c.log_end_offset > 0 ==> req.last_log_offset.0 + 1 == c.log_end_offset
        &&& c.log_end_offset == 0 ==> req.last_log_offset.0 == 0
    }
}

/// A candidate whose log is as current as a voter's gets that voter's vote with
/// the request it sends, where the voter is still in an earlier term; and one
/// whose log is older does not.
pub proof fn law_request_wins_older_logs(
    c: NodeStateView,
    to: NodeId,
    action: IoActionView,
    voter: NodeStateView,
    deadline: u64,
)
    requires
        asks(action, to, c),
        voter.current_term.0 < c.current_term.0,
    ensures
        action matches IoActionView::SendRpc(n, m) && (m.payload matches
            RpcPayloadView::VoteRequest(req) && (voted(voter, req, deadline).voted_for == Some(
            c.node_id,
        ) <==> {
            ||| voter.log_end_offset == 0
            ||| voter.last_log_term.0 < c.last_log_term.0
            ||| voter.last_log_term == c.last_log_term && voter.log_end_offset <= (
            if c.log_end_offset == 0 {
                1
            } else {
                c.log_end_offset
            })
        })),
{
}

/// Starting an election: the node stands for the next term, and that term with
/// its own vote is saved before it asks anyone.
pub proof fn law_election_starts_with_own_vote(s: NodeStateView, deadline: u64)
    requires
        s.current_term.0 < u64::MAX,
    ensures
        ({
            let c = s.as_candidate(deadline);
            let actions = election_actions(s, deadline);
            &&& c.current_term.0 == s.current_term.0 + 1
            &&& c.voted_for == Some(s.node_id)
            &&& c.role == Role::Candidate
            &&& keeps_log(s, c)
            &&& actions.len() > 0
            &&& actions[0] matches IoActionView::PersistQuorumState(q) && q.current_term.0
                == s.current_term.0 + 1 && q.voted_for == Some(s.node_id) && q.cluster_id
                == s.cluster_id && q.leader_id is None
            &&& forall|k: int|
                1 <= k < actions.len() ==> (#[trigger] actions[k] matches IoActionView::SendRpc(
                    to,
                    m,
                ) && to != s.node_id && has_voter(s.voter_set, to) && asks(actions[k], to, c))
            &&& forall|i: int|
                0 <= i < s.voter_set.len() && (#[trigger] s.voter_set[i]).node_id != s.node_id
                    ==> exists|k: int|
                    1 <= k < actions.len() && #[trigger] asks(
                        actions[k],
                        s.voter_set[i].node_id,
                        c,
                    )
        }),
{
    let c = s.as_candidate(deadline);
    let actions = election_actions(s, deadline);
    let sent = vote_requests(c, c.voter_set);
    law_every_voter_is_asked(c, c.voter_set);
    assert forall|k: int| 1 <= k < actions.len() implies (#[trigger] actions[k] matches
        IoActionView::SendRpc(to, m) && to != s.node_id && has_voter(s.voter_set, to) && asks(
        actions[k],
        to,
        c,
    )) by {
        assert(actions[k] == sent[k - 1]);
    }
    assert forall|i: int|
        0 <= i < s.voter_set.len() && (#[trigger] s.voter_set[i]).node_id
            != s.node_id implies exists|
        k: int,
    |
        1 <= k < actions.len() && #[trigger] asks(actions[k], s.voter_set[i].node_id, c) by {
        let k = choose|k: int|
            0 <= k < sent.len() && #[trigger] asks(sent[k], c.voter_set[i].node_id, c);
        assert(actions[k + 1] == sent[k]);
        assert(asks(actions[k + 1], s.voter_set[i].node_id, c));
    }
}

/// A vote response wins exactly if it is the vote of a voter for this candidacy
/// and the voters that gave theirs are then more than half. A higher term makes
/// the node a follower of it without a vote; any other response that is no such
/// vote changes nothing.
pub proof fn law_vote_count(
    s: NodeStateView,
    voter: NodeId,
    resp: VoteResponse,
    now: u64,
    timeout: u64,
)
    requires
        now + timeout <= u64::MAX,
    ensures
        ({
            let (after, won) = vote_answered(s, voter, resp, now, timeout);
            let votes = s.votes_received.insert(voter.0);
            let counts = s.role == Role::Candidate && resp.term == s.current_term
                && !resp.is_pre_vote && resp.vote_granted && has_voter(s.voter_set, voter);
            &&& won <==> counts && 2 * votes.len() > s.voter_set.len()
            &&& won ==> after.role == Role::Leader && after.leader_id == Some(s.node_id)
                && after.current_term == s.current_term && after.voted_for == s.voted_for
            &&& counts ==> after.votes_received == votes
            &&& counts && !won ==> after.role == Role::Candidate
            &&& resp.term.0 > s.current_term.0 ==> after.role == Role::Follower
                && after.current_term == resp.term && after.voted_for is None && after.leader_id
                is None
            &&& resp.term.0 <= s.current_term.0 && !counts ==> after == s
            &&& keeps_log(s, after)
        }),
        ({
            let (after, won) = vote_recorded(s, voter);
            let votes = s.votes_received.insert(voter.0);
            &&& won <==> s.role == Role::Candidate && 2 * votes.len() > s.voter_set.len()
            &&& s.role == Role::Candidate ==> after.votes_received == votes
            &&& s.role != Role::Candidate ==> after == s
            &&& after.role == s.role && after.current_term == s.current_term && after.voted_for
                == s.voted_for && keeps_log(s, after)
        }),
{
    law_majority_is_least(s.voter_set.len());
}

/// A higher term in a message makes a follower of that term, with no vote and
/// no leader; any other leaves the node as it is.
pub proof fn law_step_down(s: NodeStateView, term: Term, deadline: u64)
    ensures
        ({
            let after = stepped_down(s, term, deadline);
            &&& term.0 > s.current_term.0 ==> after.current_term == term && after.role
                == Role::Follower && after.voted_for is None && after.leader_id is None
                && after.election_deadline == deadline && after.votes_received =~= Set::<
                u64,
            >::empty()
            &&& term.0 <= s.current_term.0 ==> after == s
            &&& keeps_log(s, after)
        }),
{
}

/// The first entry of a leader stands at the end of its log, in its own term,
/// and the log ends behind it with that term.
pub proof fn law_leader_opens_its_term(s: NodeStateView)
    requires
        s.log_end_offset < u64::MAX,
    ensures
        ({
            let e = leader_change_entry(s);
            let after = with_leader_change(s);
            &&& e.offset == s.log_end_offset
            &&& e.term == s.current_term
            &&& e.entry_type == EntryType::LeaderChangeMessage
            &&& e.payload.len() == 0
            &&& after.log_end_offset == e.offset + 1
            &&& after.last_log_term == e.term
            &&& after.current_term == s.current_term && after.role == s.role && after.voted_for
                == s.voted_for && after.high_watermark == s.high_watermark
        }),
{
}

} // verus!
