//! What the transitions of the event loop promise.
use vstd::prelude::*;

use crate::consensus_state::Role;
use crate::election_laws::{asks, law_election_starts_with_own_vote, law_vote_answer};
use crate::event_loop::{
    due_timer, elected, message_term, quorum_checked, received, timed_out, wake_at, DueTimer,
    EventLoop, LoopStep, Transition,
};
use crate::io_action::IoActionView;
use crate::listener::Listener;
use crate::log_entry::EntryType;
use crate::node_state::NodeStateView;
use crate::node_state_laws::{keeps_log, law_majority_is_least, law_quorum_check};
use crate::rpc::{RpcEnvelopeView, RpcPayloadView};
use crate::traits::StateMachine;
use crate::types::Term;
use crate::voter::{has_voter, VoterView};

verus! {

/// A timer is due exactly if the node has one in its role and the time at which
/// the loop wakes up has come: the quorum timer in a leader, the election timer
/// in a follower or candidate.
pub proof fn law_due_timer(s: NodeStateView, now: u64)
    ensures
        s.role == Role::Leader ==> wake_at(s) == s.check_quorum_deadline,
        s.role != Role::Leader ==> wake_at(s) == s.election_deadline,
        due_timer(s, now) == Some(DueTimer::CheckQuorum) <==> s.role == Role::Leader && now
            >= wake_at(s),
        due_timer(s, now) == Some(DueTimer::Election) <==> (s.role == Role::Follower || s.role
            == Role::Candidate) && now >= wake_at(s),
        due_timer(s, now) is None <==> s.role == Role::Unattached || now < wake_at(s),
{
}

/// The node leads its term with its first entry: it leads in its own name, its
/// term, vote and leadership are saved before the entry is appended, the entry
/// is of its term and stands at the end of the log, and nothing is committed
/// by it.
pub proof fn law_elected_opens_term(
    s: NodeStateView,
    actions: Seq<IoActionView>,
    now: u64,
    interval: u64,
)
    requires
        now + interval <= u64::MAX,
        s.log_end_offset < u64::MAX,
    ensures
        ({
            let t = elected(s, actions, now, interval);
            let n = actions.len() as int;
            &&& t.elected
            &&& t.state.role == Role::Leader
            &&& t.state.leader_id == Some(s.node_id)
            &&& t.state.current_term == s.current_term
            &&& t.state.voted_for == s.voted_for
            &&& t.state.log_end_offset == s.log_end_offset + 1
            &&& t.state.last_log_term == s.current_term
            &&& t.state.high_watermark == s.high_watermark
            &&& t.state.check_quorum_deadline == now + interval
            &&& t.state.check_quorum_interval == interval
            &&& t.state.follower_state.dom() =~= Set::<u64>::empty()
            &&& t.state == (NodeStateView {
                role: t.state.role,
                leader_id: t.state.leader_id,
                follower_state: t.state.follower_state,
                check_quorum_interval: t.state.check_quorum_interval,
                check_quorum_deadline: t.state.check_quorum_deadline,
                log_end_offset: t.state.log_end_offset,
                last_log_term: t.state.last_log_term,
                ..s
            })
            &&& t.actions.len() == n + 2
            &&& forall|i: int| 0 <= i < n ==> t.actions[i] == #[trigger] actions[i]
            &&& t.actions[n] matches IoActionView::PersistQuorumState(q) && q.current_term
                == s.current_term && q.voted_for == s.voted_for && q.leader_id == Some(s.node_id)
                && q.leader_epoch == s.current_term && q.cluster_id == s.cluster_id
            &&& t.actions[n + 1] matches IoActionView::AppendLog(entries) && entries.len() == 1
                && entries[0].offset == s.log_end_offset && entries[0].term == s.current_term
                && entries[0].entry_type == EntryType::LeaderChangeMessage
                && entries[0].payload.len() == 0
        }),
{
}

/// The quorum check of a leader: with more than half of the voters heard of
/// within its interval it goes on until the next check, and nothing is saved;
/// otherwise it becomes a follower of its own term without a leader, keeps its
/// vote, and saves that.
pub proof fn law_quorum_check_outcome(s: NodeStateView, now: u64, timeout: u64)
    requires
        if s.quorum_active(now, s.check_quorum_interval) {
            now + s.check_quorum_interval <= u64::MAX
        } else {
            now + timeout <= u64::MAX
        },
    ensures
        ({
            let t = quorum_checked(s, now, timeout);
            let heard = s.voter_set.filter(
                |v: VoterView|
                    {
                        ||| v.node_id == s.node_id
                        ||| s.follower_state.contains_key(v.node_id.0) && now
                            - s.follower_state[v.node_id.0].last_fetch_timestamp
                            <= s.check_quorum_interval
                    },
            );
            &&& !t.elected
            &&& 2 * heard.len() > s.voter_set.len() ==> {
                &&& t.state.check_quorum_deadline == now + s.check_quorum_interval
                &&& t.state == (NodeStateView {
                    check_quorum_deadline: t.state.check_quorum_deadline,
                    ..s
                })
                &&& t.actions.len() == 0
            }
            &&& 2 * heard.len() <= s.voter_set.len() ==> {
                &&& t.state.role == Role::Follower
                &&& t.state.leader_id is None
                &&& t.state.election_deadline == now + timeout
                &&& t.actions.len() == 1
                &&& t.actions[0] matches IoActionView::PersistQuorumState(q) && q.current_term
                    == s.current_term && q.voted_for == s.voted_for && q.leader_id is None
                    && q.cluster_id == s.cluster_id
            }
            &&& t.state.current_term == s.current_term
            &&& t.state.voted_for == s.voted_for
            &&& keeps_log(s, t.state)
        }),
{
    law_quorum_check(s, now, s.check_quorum_interval);
}

/// The election timeout of a voter: it stands for the next term, saves that
/// with its own vote before it asks each other voter, and leads at once exactly
/// if it is the only voter.
pub proof fn law_timeout_starts_election(
    s: NodeStateView,
    now: u64,
    timeout: u64,
    interval: u64,
)
    requires
        now + timeout <= u64::MAX,
        s.current_term.0 < u64::MAX,
        s.voter_set.len() == 1 ==> now + interval <= u64::MAX && s.log_end_offset < u64::MAX,
    ensures
        ({
            let t = timed_out(s, now, timeout, interval);
            let sole = s.voter_set.len() == 1;
            &&& t.elected <==> sole
            &&& t.state.current_term.0 == s.current_term.0 + 1
            &&& t.state.voted_for == Some(s.node_id)
            &&& t.state.role == (if sole {
                Role::Leader
            } else {
                Role::Candidate
            })
            &&& t.state.election_deadline == now + timeout
            &&& sole ==> t.state.check_quorum_interval == interval
                && t.state.check_quorum_deadline == now + interval
            &&& t.state.log_end_offset == (if sole {
                s.log_end_offset + 1
            } else {
                s.log_end_offset as int
            })
            &&& t.state.high_watermark == s.high_watermark
            &&& t.actions.len() > 0
            &&& t.actions[0] matches IoActionView::PersistQuorumState(q) && q.current_term.0
                == s.current_term.0 + 1 && q.voted_for == Some(s.node_id)
            &&& !sole ==> forall|i: int|
                0 <= i < s.voter_set.len() && (#[trigger] s.voter_set[i]).node_id != s.node_id
                    ==> exists|k: int|
                    1 <= k < t.actions.len() && #[trigger] asks(
                        t.actions[k],
                        s.voter_set[i].node_id,
                        t.state,
                    )
        }),
{
    law_election_starts_with_own_vote(s, (now + timeout) as u64);
}

/// The term that a message carries, by its kind. Pre-votes carry none, so they
/// never move a node to another term.
pub proof fn law_message_term(m: RpcEnvelopeView)
    ensures
        message_term(m) == (match m.payload {
            RpcPayloadView::VoteRequest(req) => if req.is_pre_vote {
                None::<Term>
            } else {
                Some(req.term)
            },
            RpcPayloadView::VoteResponse(resp) => if resp.is_pre_vote {
                None
            } else {
                Some(resp.term)
            },
            RpcPayloadView::FetchResponse(resp) => Some(resp.leader_epoch),
            RpcPayloadView::FetchRequest(_) => Some(m.leader_epoch),
            RpcPayloadView::FetchSnapshotRequest(_) => Some(m.leader_epoch),
            RpcPayloadView::FetchSnapshotResponse(_) => Some(m.leader_epoch),
        }),
{
}

/// After a message the node is in the later of its own term and the term that
/// the message carries. Where that is a new term, it gave its vote to no one in
/// it but to the sender of a vote request, it does not lead, it waits a timeout
/// for an election, and the first action saves the new term.
pub proof fn law_message_moves_term(s: NodeStateView, m: RpcEnvelopeView, now: u64, timeout: u64)
    requires
        now + timeout <= u64::MAX,
    ensures
        ({
            let t = received(s, m, now, timeout);
            let after = t.state;
            let newer = message_term(m) matches Some(x) && x.0 > s.current_term.0;
            &&& newer ==> after.current_term == message_term(m)->0
            &&& !newer ==> after.current_term == s.current_term
            &&& newer ==> {
                &&& after.role == Role::Follower
                &&& after.leader_id is None
                &&& after.voted_for is None || (m.payload matches RpcPayloadView::VoteRequest(req)
                    && after.voted_for == Some(req.candidate_id))
                &&& t.actions.len() > 0
                &&& t.actions[0] matches IoActionView::PersistQuorumState(q) && q.current_term
                    == after.current_term && q.voted_for is None && q.cluster_id == s.cluster_id
                    && q.leader_id is None
                &&& after.election_deadline == now + timeout
                &&& after.votes_received =~= Set::<u64>::empty()
                &&& after.follower_state.dom() =~= Set::<u64>::empty()
                &&& !t.elected
            }
            &&& after.log == s.log && after.voter_set == s.voter_set && after.high_watermark
                == s.high_watermark && after.node_id == s.node_id && after.cluster_id
                == s.cluster_id
            &&& !t.elected ==> keeps_log(s, after)
        }),
{
}

/// A vote request is answered to the candidate by the rules of votes: the last
/// action is the answer, and it grants exactly if the vote is free in the
/// request's term, the node does not lead it, and the candidate's log is no
/// older. A grant is saved right before it is sent.
pub proof fn law_vote_request_is_answered(
    s: NodeStateView,
    m: RpcEnvelopeView,
    now: u64,
    timeout: u64,
)
    requires
        now + timeout <= u64::MAX,
    ensures
        m.payload matches RpcPayloadView::VoteRequest(req) ==> {
            let t = received(s, m, now, timeout);
            let n = t.actions.len() as int;
            let log_ok = {
                ||| s.log_end_offset == 0
                ||| s.last_log_term.0 < req.last_log_term.0
                ||| s.last_log_term.0 == req.last_log_term.0 && s.log_end_offset - 1
                    <= req.last_log_offset.0
            };
            &&& !t.elected
            &&& n > 0
            &&& t.actions[n - 1] matches IoActionView::SendRpc(to, e) && {
                &&& to == req.candidate_id
                &&& e.payload matches RpcPayloadView::VoteResponse(resp) && {
                    &&& resp.is_pre_vote == req.is_pre_vote
                    &&& resp.term == t.state.current_term
                    &&& req.is_pre_vote ==> {
                        &&& t.state == s
                        &&& n == 1
                        &&& resp.vote_granted <==> req.term.0 >= s.current_term.0 && log_ok
                    }
                    &&& !req.is_pre_vote ==> {
                        &&& resp.vote_granted <==> log_ok && (req.term.0 > s.current_term.0 || (
                        req.term == s.current_term && s.role != Role::Leader && (s.voted_for is None
                            || s.voted_for == Some(req.candidate_id))))
                        &&& resp.vote_granted ==> t.state.election_deadline == now + timeout
                            && t.state.voted_for == Some(req.candidate_id) && n > 1 && (
                        t.actions[n - 2] matches IoActionView::PersistQuorumState(q)
                            && q.current_term == req.term && q.voted_for == Some(
                            req.candidate_id,
                        ))
                    }
                }
            }
        },
{
    if let RpcPayloadView::VoteRequest(req) = m.payload {
        if !req.is_pre_vote {
            let deadline = (now + timeout) as u64;
            let d = crate::election::stepped_down(s, req.term, deadline);
            law_vote_answer(d, req, deadline);
            let t = received(s, m, now, timeout);
            let answer = crate::election::vote_actions(d, req, deadline);
            assert(t.actions.last() == answer.last());
            if answer.len() == 2 {
                assert(t.actions[t.actions.len() - 2] == answer[0]);
            }
        }
    }
}

/// A vote response wins the election exactly if the node is a candidate, the
/// vote is of a voter, granted in this term and no pre-vote, and the votes are
/// then more than half of the voters. A counted vote is on record; a pre-vote
/// that is granted in this term is counted apart.
pub proof fn law_votes_are_counted(s: NodeStateView, m: RpcEnvelopeView, now: u64, timeout: u64)
    ensures
        m.payload matches RpcPayloadView::VoteResponse(resp) ==> {
            let t = received(s, m, now, timeout);
            let votes = s.votes_received.insert(m.source.0);
            let counts = s.role == Role::Candidate && !resp.is_pre_vote && resp.vote_granted
                && resp.term == s.current_term && has_voter(s.voter_set, m.source);
            &&& t.elected <==> counts && 2 * votes.len() > s.voter_set.len()
            &&& counts ==> t.state.votes_received == votes
            &&& counts && !t.elected ==> t.state.role == Role::Candidate && t.actions.len() == 0
            &&& t.elected ==> t == elected(
                NodeStateView { votes_received: votes, ..s },
                seq![],
                now,
                timeout,
            )
            &&& t.elected ==> t.state.role == Role::Leader && t.state.current_term
                == s.current_term
            &&& resp.is_pre_vote && resp.vote_granted && resp.term == s.current_term
                ==> t.state.pre_votes_received == s.pre_votes_received.insert(m.source.0)
            &&& resp.is_pre_vote ==> t.actions.len() == 0 && t.state.votes_received
                == s.votes_received
            &&& resp.is_pre_vote && !(resp.vote_granted && resp.term == s.current_term)
                ==> t.state == s
            &&& !resp.is_pre_vote && !counts && resp.term.0 <= s.current_term.0 ==> t.state == s
                && t.actions.len() == 0
        },
        !(m.payload is VoteResponse) ==> !received(s, m, now, timeout).elected,
        m.payload is FetchResponse || m.payload is FetchSnapshotRequest || m.payload
            is FetchSnapshotResponse ==> (message_term(m) matches Some(x) && (x.0
            <= s.current_term.0 ==> received(s, m, now, timeout).state == s && received(
            s,
            m,
            now,
            timeout,
        ).actions.len() == 0)),
{
    law_majority_is_least(s.voter_set.len());
}

/// A leader that stays one records who fetched, from which offset and when, and
/// nothing else changes; another node records no fetch.
pub proof fn law_fetches_are_recorded(s: NodeStateView, m: RpcEnvelopeView, now: u64, timeout: u64)
    ensures
        m.payload matches RpcPayloadView::FetchRequest(req) ==> {
            let t = received(s, m, now, timeout);
            let leads = s.role == Role::Leader && m.leader_epoch.0 <= s.current_term.0;
            &&& leads ==> {
                &&& t.state.role == Role::Leader
                &&& t.state.follower_state.contains_key(m.source.0)
                &&& t.state.follower_state[m.source.0].fetch_offset == req.fetch_offset
                &&& t.state.follower_state[m.source.0].last_fetch_timestamp == now
                &&& t.state.follower_state[m.source.0].is_voter == has_voter(
                    s.voter_set,
                    m.source,
                )
                &&& forall|id: u64|
                    id != m.source.0 ==> (#[trigger] t.state.follower_state.contains_key(id)
                        <==> s.follower_state.contains_key(id))
                &&& forall|id: u64|
                    id != m.source.0 && s.follower_state.contains_key(id)
                        ==> #[trigger] t.state.follower_state[id] == s.follower_state[id]
                &&& t.actions.len() == 0
            }
            &&& !leads && m.leader_epoch.0 <= s.current_term.0 ==> t.state == s
        },
{
}

/// What the loop hands out after a transition shows the state that it is in,
/// and the listener hears of a leader exactly if the node became one.
pub proof fn law_step_shows_state<S: StateMachine, L: Listener>(
    before: EventLoop<S, L>,
    after: EventLoop<S, L>,
    t: Transition,
    step: Option<LoopStep>,
)
    requires
        EventLoop::went_through(before, after, t, step),
    ensures
        step matches Some(st) && {
            &&& st.publish.current_term == after.state.current_term
            &&& st.publish.role == after.state.role
            &&& st.publish.leader_id == after.state.leader_id
            &&& st.publish.log_end_offset == after.state.log_end_offset
            &&& st.publish.high_watermark == after.state.high_watermark
            &&& st.publish@.voter_set == after.state@.voter_set
            &&& st.publish.node_id == after.state.node_id
            &&& st.batch@ == t.actions
        },
        after.state@ == t.state,
        t.elected ==> before.listener.leader_change_step(
            after.state.node_id,
            after.state.current_term,
            &after.listener,
        ),
        !t.elected ==> after.listener == before.listener,
{
}

} // verus!
