//! What a node promises across votes, elections, cluster formation and
//! restarts.
use vstd::prelude::*;

use crate::consensus_state::Role;
use crate::listener::Listener;
use crate::log_entry::{EntryType, LogEntryView};
use crate::node_state::NodeStateView;
use crate::node_state_laws::{keeps_log, law_majority_is_least};
use crate::raft_node::{
    bootstrap_error, bootstrap_refused, data_present, dispatched, first_duplicate, founded,
    last_entry, latest_voters, leading, message_of, opens_with, other_voters, quorum_reached,
    recovered, request_of, requested, responded, standing, timer_of, vote_decided, vote_record,
    with_quorum_state, with_snapshot, RaftNode, RpcStep, StoredDataView, VoteDecision,
    VoteRequestStep, VoteResponseStep,
};
use crate::rpc::{RpcEnvelopeView, RpcPayloadView, VoteRequest, VoteResponse};
use crate::traits::StateMachine;
use crate::types::{ClusterId, NodeId, Term};
use crate::voter::{has_voter, VoterView, VotersRecordView};

verus! {

/// A vote or pre-vote is granted exactly if the request is not stale, the vote
/// is free or the candidate's already, and the candidate's last entry is of a
/// later term than this node's, or of the same term and at no earlier offset.
pub proof fn law_vote_needs_current_log(
    before: NodeStateView,
    request: VoteRequest,
    last_offset: u64,
    last_term: Term,
    after: NodeStateView,
    d: VoteDecision,
)
    requires
        vote_decided(before, request, last_offset, last_term, after, d),
    ensures
        d.response.vote_granted ==> {
            &&& last_term.0 <= request.last_log_term.0
            &&& last_term.0 == request.last_log_term.0 ==> last_offset
                <= request.last_log_offset.0
            &&& before.current_term.0 <= request.term.0
            &&& before.voted_for is None || before.voted_for == Some(request.candidate_id)
        },
        before.current_term.0 <= request.term.0 && (before.voted_for is None || before.voted_for
            == Some(request.candidate_id)) && (last_term.0 < request.last_log_term.0 || (last_term.0
            == request.last_log_term.0 && last_offset <= request.last_log_offset.0))
            ==> d.response.vote_granted,
{
}

/// A vote that is given is the candidate's, in the term that the node is in,
/// and is to be saved as such; whatever else is decided changes nothing and
/// saves nothing. The answer names the node's term and says whether it is to a
/// pre-vote.
pub proof fn law_vote_is_saved(
    before: NodeStateView,
    request: VoteRequest,
    last_offset: u64,
    last_term: Term,
    after: NodeStateView,
    d: VoteDecision,
)
    requires
        vote_decided(before, request, last_offset, last_term, after, d),
    ensures
        d.response.term == before.current_term,
        d.response.is_pre_vote == request.is_pre_vote,
        d.response.vote_granted && !request.is_pre_vote ==> {
            &&& after.voted_for == Some(request.candidate_id)
            &&& d.persist matches Some(q) && q.voted_for == Some(request.candidate_id)
                && q.current_term == before.current_term && q.cluster_id == before.cluster_id
                && q.leader_id is None
        },
        !d.response.vote_granted || request.is_pre_vote ==> after == before && d.persist is None,
        after == (NodeStateView { voted_for: after.voted_for, ..before }),
{
}

/// Two candidates never get the vote of one node in one term.
pub proof fn law_one_vote_per_term(
    before: NodeStateView,
    first: VoteRequest,
    between: NodeStateView,
    d1: VoteDecision,
    second: VoteRequest,
    after: NodeStateView,
    d2: VoteDecision,
    last_offset: u64,
    last_term: Term,
)
    requires
        vote_decided(before, first, last_offset, last_term, between, d1),
        vote_decided(between, second, last_offset, last_term, after, d2),
        !first.is_pre_vote,
        d1.response.vote_granted,
        d2.response.vote_granted,
    ensures
        first.candidate_id == second.candidate_id,
{
}

/// Leader completeness, for one entry: where an entry at the end of the logs of
/// more than half of the voters is committed, a candidate with the votes of
/// more than half of them has a last entry that is no older than it.
/// `last_of` tells the last entry of each voter when it voted.
pub proof fn law_winner_has_committed_entry(
    voters: Set<u64>,
    holders: Set<u64>,
    votes: Set<u64>,
    last_of: Map<u64, (Term, u64)>,
    states: Map<u64, NodeStateView>,
    request: VoteRequest,
    entry: (Term, u64),
)
    requires
        voters.finite(),
        holders.subset_of(voters),
        votes.subset_of(voters),
        2 * holders.len() > voters.len(),
        2 * votes.len() > voters.len(),
        forall|v: u64| #[trigger]
            holders.contains(v) ==> last_of[v].0.0 > entry.0.0 || (last_of[v].0 == entry.0
                && last_of[v].1 >= entry.1),
        forall|v: u64| #[trigger]
            votes.contains(v) ==> exists|after: NodeStateView, d: VoteDecision| #[trigger]
                vote_decided(states[v], request, last_of[v].1, last_of[v].0, after, d)
                    && d.response.vote_granted,
    ensures
        request.last_log_term.0 > entry.0.0 || (request.last_log_term == entry.0
            && request.last_log_offset.0 >= entry.1),
{
    law_majority_is_least(voters.len());
    crate::election::law_majorities_intersect(voters, holders, votes);
    let v = choose|v: u64| holders.contains(v) && #[trigger] votes.contains(v);
    let (after, d) = choose|after: NodeStateView, d: VoteDecision| #[trigger]
        vote_decided(states[v], request, last_of[v].1, last_of[v].0, after, d)
            && d.response.vote_granted;
    law_vote_needs_current_log(states[v], request, last_of[v].1, last_of[v].0, after, d);
}

/// The request that a candidate sends asks in its own name and term, and gets
/// the vote of each node in that term whose vote is free and whose last entry
/// is no newer than the candidate's, and of no other.
pub proof fn law_request_tells_own_log(
    c: NodeStateView,
    last_offset: u64,
    last_term: Term,
    voter: NodeStateView,
    voter_offset: u64,
    voter_term: Term,
    after: NodeStateView,
    d: VoteDecision,
)
    requires
        vote_decided(
            voter,
            request_of(c, last_offset, last_term),
            voter_offset,
            voter_term,
            after,
            d,
        ),
        voter.current_term == c.current_term,
        voter.voted_for is None,
    ensures
        request_of(c, last_offset, last_term).candidate_id == c.node_id,
        request_of(c, last_offset, last_term).term == c.current_term,
        !request_of(c, last_offset, last_term).is_pre_vote,
        d.response.vote_granted <==> voter_term.0 < last_term.0 || (voter_term == last_term
            && voter_offset <= last_offset),
        d.response.vote_granted ==> after.voted_for == Some(c.node_id),
{
}

/// A candidate writes to every voter of the list but itself, and to no other.
pub proof fn law_others_are_asked(voters: Seq<VoterView>, id: NodeId)
    ensures
        forall|to: NodeId| #[trigger]
            other_voters(voters, id).contains(to) <==> has_voter(voters, to) && to != id,
        other_voters(voters, id).len() == voters.filter(|v: VoterView| v.node_id != id).len(),
    decreases voters.len(),
{
    reveal(Seq::filter);
    let all = other_voters(voters, id);
    if voters.len() == 0 {
        assert(all =~= seq![]);
    } else {
        let rest = voters.drop_last();
        let last = voters.last();
        law_others_are_asked(rest, id);
        let before = other_voters(rest, id);
        if last.node_id != id {
            assert(all =~= before.push(last.node_id));
        } else {
            assert(all =~= before);
        }
        assert forall|to: NodeId| #[trigger] all.contains(to) <==> has_voter(voters, to) && to
            != id by {
            if before.contains(to) {
                let k = choose|k: int| 0 <= k < before.len() && before[k] == to;
                assert(all[k] == to);
            }
            if has_voter(rest, to) {
                let k = choose|k: int| 0 <= k < rest.len() && #[trigger] rest[k].node_id == to;
                assert(voters[k].node_id == to);
            }
            if has_voter(voters, to) {
                let k = choose|k: int| 0 <= k < voters.len() && #[trigger] voters[k].node_id == to;
                if k < rest.len() {
                    assert(rest[k].node_id == to);
                }
            }
            if to == last.node_id {
                assert(voters[voters.len() - 1].node_id == to);
                if to != id {
                    assert(all[before.len() as int] == to);
                }
            }
            if all.contains(to) {
                let k = choose|k: int| 0 <= k < all.len() && all[k] == to;
                if k < before.len() {
                    assert(before[k] == to);
                    assert(before.contains(to));
                }
            }
        }
    }
}

/// Messages are sent in the node's own name and cluster.
pub proof fn law_messages_name_sender(s: NodeStateView, payload: RpcPayloadView)
    ensures
        message_of(s, payload).source == s.node_id,
        message_of(s, payload).cluster_id == s.cluster_id,
        message_of(s, payload).payload == payload,
{
}

/// The first part of a vote request: only candidates among the voters get
/// beyond a denial, a later term is adopted with no vote and is to be saved,
/// and otherwise nothing changes before the decision.
pub proof fn law_vote_request_step(s: NodeStateView, request: VoteRequest, deadline: u64)
    ensures
        ({
            let (after, step) = requested(s, request, deadline);
            let known = has_voter(s.voter_set, request.candidate_id);
            &&& !known ==> after == s && (step matches VoteRequestStep::Reply(r)
                && !r.vote_granted && r.term == s.current_term && r.is_pre_vote
                == request.is_pre_vote)
            &&& known && request.term.0 > s.current_term.0 ==> {
                &&& after.current_term == request.term
                &&& after.voted_for is None
                &&& after.role == Role::Follower
                &&& after.leader_id is None
                &&& after.election_deadline == deadline
                &&& after.votes_received =~= Set::<u64>::empty()
                &&& step matches VoteRequestStep::Persist(q) && q.current_term == request.term
                    && q.voted_for is None && q.cluster_id == s.cluster_id
            }
            &&& known && request.term.0 <= s.current_term.0 ==> after == s && step
                == VoteRequestStep::Decide
            &&& after == (NodeStateView {
                current_term: after.current_term,
                voted_for: after.voted_for,
                role: after.role,
                leader_id: after.leader_id,
                votes_received: after.votes_received,
                election_deadline: after.election_deadline,
                ..s
            })
        }),
{
}

/// A vote response: a later term is adopted and saved; a vote of a voter for
/// this candidacy is counted, and wins exactly if the votes are then more than
/// half of the voters; nothing else changes anything.
pub proof fn law_vote_response_step(
    s: NodeStateView,
    from: NodeId,
    response: VoteResponse,
    deadline: u64,
)
    ensures
        ({
            let (after, step) = responded(s, from, response, deadline);
            let votes = s.votes_received.insert(from.0);
            let counts = s.role == Role::Candidate && response.term == s.current_term
                && !response.is_pre_vote && response.vote_granted && has_voter(s.voter_set, from);
            &&& step == VoteResponseStep::Won <==> counts && 2 * votes.len() > s.voter_set.len()
            &&& counts ==> after == (NodeStateView { votes_received: votes, ..s })
            &&& response.term.0 > s.current_term.0 ==> {
                &&& after.current_term == response.term
                &&& after.voted_for is None
                &&& after.role == Role::Follower
                &&& after.leader_id is None
                &&& step matches VoteResponseStep::Persist(q) && q.current_term == response.term
                    && q.voted_for is None && q.cluster_id == s.cluster_id
            }
            &&& response.term.0 <= s.current_term.0 && !counts ==> after == s && step
                == VoteResponseStep::Done
            &&& after == (NodeStateView {
                current_term: after.current_term,
                voted_for: after.voted_for,
                role: after.role,
                leader_id: after.leader_id,
                votes_received: after.votes_received,
                election_deadline: after.election_deadline,
                ..s
            })
        }),
{
    law_majority_is_least(s.voter_set.len());
    if has_voter(s.voter_set, from) {
        assert(s.voter_set.len() > 0);
    }
}

/// A quorum is more than half of the voters, of which there is one at least.
pub proof fn law_quorum_is_majority(s: NodeStateView)
    ensures
        quorum_reached(s) <==> s.voter_set.len() > 0 && 2 * s.votes_received.len()
            > s.voter_set.len(),
{
    law_majority_is_least(s.voter_set.len());
}

/// An election timeout makes the node a candidate of the next term with its own
/// vote and no other, and exactly that term and vote are saved.
pub proof fn law_candidate_votes_for_itself(s: NodeStateView)
    requires
        s.current_term.0 < u64::MAX,
    ensures
        ({
            let c = standing(s);
            let q = vote_record(c, Some(s.node_id));
            &&& c.current_term.0 == s.current_term.0 + 1
            &&& c.voted_for == Some(s.node_id)
            &&& c.role == Role::Candidate
            &&& c.leader_id is None
            &&& forall|id: u64| #[trigger] c.votes_received.contains(id) <==> id == s.node_id.0
            &&& q.current_term == c.current_term && q.voted_for == c.voted_for && q.cluster_id
                == c.cluster_id
            &&& c == (NodeStateView {
                current_term: c.current_term,
                voted_for: c.voted_for,
                role: c.role,
                leader_id: c.leader_id,
                votes_received: c.votes_received,
                ..s
            })
        }),
{
}

/// A new leader leads in its own term and name, and its log ends where its
/// entries end. It has everything committed exactly if it is the only voter;
/// otherwise what is committed waits for the others.
pub proof fn law_new_leader(s: NodeStateView, log_end: u64)
    ensures
        ({
            let l = leading(s, log_end);
            &&& l.role == Role::Leader
            &&& l.leader_id == Some(s.node_id)
            &&& l.current_term == s.current_term
            &&& l.voted_for == s.voted_for
            &&& l.log_end_offset == log_end
            &&& l.high_watermark == (if s.voter_set.len() == 1 {
                log_end
            } else {
                s.high_watermark
            })
            &&& s.high_watermark <= log_end ==> l.high_watermark <= log_end
            &&& l == (NodeStateView {
                role: l.role,
                leader_id: l.leader_id,
                log_end_offset: l.log_end_offset,
                high_watermark: l.high_watermark,
                ..s
            })
        }),
{
}

/// The entries of a new leader continue the log without a gap, in its term, and
/// after them the log tells its voters: those of the leader, where the log told
/// none before.
pub proof fn law_leader_entries_continue_log(
    s: NodeStateView,
    log: Seq<LogEntryView>,
    log_end: u64,
    first: LogEntryView,
    second: Option<LogEntryView>,
)
    requires
        log_end < u64::MAX,
        opens_with(s, log_end, latest_voters(log) is Some, first, second),
    ensures
        first.offset == log_end && first.term == s.current_term && first.entry_type
            == EntryType::LeaderChangeMessage,
        second matches Some(e) ==> e.offset == log_end + 1 && e.term == s.current_term
            && e.entry_type == EntryType::VotersRecord && VotersRecordView::decoding(e.payload)
            == Some(VotersRecordView { version: 1, voters: s.voter_set }),
        ({
            let after = match second {
                Some(e) => log.push(first).push(e),
                None => log.push(first),
            };
            latest_voters(after) == (match latest_voters(log) {
                Some(v) => Some(v),
                None => Some(s.voter_set),
            })
        }),
{
    assert(log.push(first).drop_last() =~= log);
    if let Some(e) = second {
        assert(log.push(first).push(e).drop_last() =~= log.push(first));
    }
}

/// The election timer runs in followers and candidates alone, until the
/// election deadline.
pub proof fn law_timer_runs_in_elections(s: NodeStateView, now: u64)
    ensures
        timer_of(s) is Some <==> s.role == Role::Follower || s.role == Role::Candidate,
        timer_of(s) matches Some(d) ==> d == s.election_deadline,
{
}

/// The last entry stands right before the end of the log; of an empty log, and
/// where its term could not be read, offset and term count as zero.
pub proof fn law_last_entry(log_end: u64, term: Option<Term>)
    ensures
        log_end > 0 ==> last_entry(log_end, term).0 + 1 == log_end,
        log_end > 0 && term is Some ==> last_entry(log_end, term).1 == term->0,
        log_end == 0 ==> last_entry(log_end, term) == (0u64, Term(0)),
        term is None ==> last_entry(log_end, term).1 == Term(0),
{
}

/// Stores without data are those of a node that never ran: an empty log from
/// zero, no quorum state and no snapshot.
pub proof fn law_no_data(start: u64, end: u64, has_quorum_state: bool, has_snapshot: bool)
    ensures
        !data_present(start, end, has_quorum_state, has_snapshot) <==> start == 0 && end == 0
            && !has_quorum_state && !has_snapshot,
{
}

/// Recovery loses nothing that the stores hold: the log ends where the stored
/// log or the snapshot ends, whichever is later, and starts where the stored log
/// or the rest behind the snapshot starts, whichever is later. What the
/// snapshot covers is committed.
pub proof fn law_recovery_keeps_log(
    s: NodeStateView,
    d: StoredDataView,
    deadline: u64,
)
    requires
        d.snapshot matches Some(snap) ==> snap.metadata.last_included_offset < u64::MAX,
    ensures
        ({
            let r = recovered(s, d, deadline);
            &&& r.log_end_offset >= d.log_end_offset
            &&& r.log_start_offset >= d.log_start_offset
            &&& d.snapshot matches Some(snap) ==> {
                let behind = snap.metadata.last_included_offset + 1;
                &&& r.log_end_offset >= behind
                &&& r.log_end_offset == d.log_end_offset || r.log_end_offset == behind
                &&& r.log_start_offset >= behind
                &&& r.log_start_offset == d.log_start_offset || r.log_start_offset == behind
                &&& r.high_watermark == behind
                &&& r.voter_set == snap.metadata.voters
            }
            &&& d.snapshot is None ==> {
                &&& r.log_end_offset == d.log_end_offset
                &&& r.log_start_offset == d.log_start_offset || r.log_start_offset
                    == s.log_start_offset
                &&& r.log_start_offset >= s.log_start_offset
                &&& r.high_watermark == s.high_watermark
            }
            &&& d.log_start_offset <= d.log_end_offset && s.log_start_offset
                <= d.log_end_offset ==> r.log_start_offset <= r.log_end_offset
            &&& s.high_watermark <= d.log_end_offset ==> r.high_watermark <= r.log_end_offset
        }),
{
}

/// Recovery takes term, vote, leader and cluster from the quorum state and ends
/// in a follower that waits for an election; without a quorum state these stay
/// as they were.
pub proof fn law_recovery_restores_quorum_state(
    s: NodeStateView,
    d: StoredDataView,
    deadline: u64,
)
    ensures
        ({
            let r = recovered(s, d, deadline);
            &&& d.quorum_state matches Some(q) ==> r.current_term == q.current_term
                && r.voted_for == q.voted_for && r.leader_id == q.leader_id && r.cluster_id
                == q.cluster_id
            &&& d.quorum_state is None ==> r.current_term == s.current_term && r.voted_for
                == s.voted_for && r.leader_id == s.leader_id && r.cluster_id == s.cluster_id
            &&& r.role == Role::Follower
            &&& r.election_deadline == deadline
            &&& r == (NodeStateView {
                current_term: r.current_term,
                voted_for: r.voted_for,
                leader_id: r.leader_id,
                cluster_id: r.cluster_id,
                role: r.role,
                election_deadline: r.election_deadline,
                voter_set: r.voter_set,
                log_start_offset: r.log_start_offset,
                log_end_offset: r.log_end_offset,
                high_watermark: r.high_watermark,
                ..s
            })
        }),
        ({
            let r = with_snapshot(with_quorum_state(s, d.quorum_state), d.snapshot);
            &&& d.quorum_state matches Some(q) ==> r.current_term == q.current_term
                && r.voted_for == q.voted_for && r.cluster_id == q.cluster_id
            &&& r.role == s.role
        }),
{
}

/// Recovery without a snapshot: a node that took part in elections gets the
/// voters of the last voters record in its log that decodes, and keeps those it
/// had where there is none; any other node keeps those it had.
pub proof fn law_recovery_finds_voters(s: NodeStateView, d: StoredDataView, deadline: u64)
    requires
        d.snapshot is None,
    ensures
        ({
            let r = recovered(s, d, deadline);
            let looks = d.quorum_state is Some && d.log_start_offset < d.log_end_offset;
            &&& !looks ==> r.voter_set == s.voter_set
            &&& looks && (forall|i: int|
                0 <= i < d.entries.len() ==> !names_voters(#[trigger] d.entries[i]))
                ==> r.voter_set == s.voter_set
            &&& forall|i: int|
                #![trigger d.entries[i]]
                looks && 0 <= i < d.entries.len() && names_voters(d.entries[i]) && (forall|j: int|
                    i < j < d.entries.len() ==> !names_voters(#[trigger] d.entries[j]))
                    ==> r.voter_set == VotersRecordView::decoding(d.entries[i].payload)->0.voters
        }),
{
    law_latest_voters(d.entries);
}

/// A voters record that decodes.
pub open spec fn names_voters(e: LogEntryView) -> bool {
    e.entry_type == EntryType::VotersRecord && VotersRecordView::decoding(e.payload) is Some
}

/// The voters found in a log are those of its last voters record that decodes;
/// none are found exactly if there is no such record.
#[verifier::rlimit(60)]
#[verifier::spinoff_prover]
pub proof fn law_latest_voters(entries: Seq<LogEntryView>)
    ensures
        latest_voters(entries) is None <==> (forall|i: int|
            0 <= i < entries.len() ==> !names_voters(#[trigger] entries[i])),
        forall|i: int|
            #![trigger entries[i]]
            0 <= i < entries.len() && names_voters(entries[i]) && (forall|j: int|
                i < j < entries.len() ==> !names_voters(#[trigger] entries[j])) ==> latest_voters(
                entries,
            ) == Some(VotersRecordView::decoding(entries[i].payload)->0.voters),
    decreases entries.len(),
{
    if entries.len() > 0 {
        let rest = entries.drop_last();
        law_latest_voters(rest);
        let n = entries.len() - 1;
        assert(entries[n] == entries.last());
        if !names_voters(entries.last()) {
            assert forall|i: int|
                #![trigger entries[i]]
                0 <= i < entries.len() && names_voters(entries[i]) && (forall|j: int|
                    i < j < entries.len() ==> !names_voters(
                        #[trigger] entries[j],
                    )) implies latest_voters(entries) == Some(
                VotersRecordView::decoding(entries[i].payload)->0.voters,
            ) by {
                assert(rest[i] == entries[i]);
                assert forall|j: int| i < j < rest.len() implies !names_voters(
                    #[trigger] rest[j],
                ) by {
                    assert(rest[j] == entries[j]);
                }
            }
            if latest_voters(rest) is None {
                assert forall|i: int| 0 <= i < entries.len() implies !names_voters(
                    #[trigger] entries[i],
                ) by {
                    if i < n {
                        assert(rest[i] == entries[i]);
                    }
                }
            } else {
                let i = choose|i: int| 0 <= i < rest.len() && names_voters(#[trigger] rest[i]);
                assert(names_voters(entries[i]));
            }
        } else {
            assert forall|i: int|
                #![trigger entries[i]]
                0 <= i < entries.len() && names_voters(entries[i]) && (forall|j: int|
                    i < j < entries.len() ==> !names_voters(
                        #[trigger] entries[j],
                    )) implies latest_voters(entries) == Some(
                VotersRecordView::decoding(entries[i].payload)->0.voters,
            ) by {
                if i < n {
                    assert(!names_voters(entries[n]));
                }
            }
        }
    }
}

/// A cluster is formed only with a cluster identity, with at least one voter,
/// each voter once, and with this node among them; and then nothing is wrong.
pub proof fn law_bootstrap_arguments(
    node_id: NodeId,
    cluster_id: ClusterId,
    voters: Seq<VoterView>,
)
    ensures
        bootstrap_error(node_id, cluster_id, voters) is None <==> {
            &&& cluster_id.0 != 0
            &&& voters.len() > 0
            &&& has_voter(voters, node_id)
            &&& forall|i: int, j: int|
                0 <= i < j < voters.len() ==> voters[i].node_id != voters[j].node_id
        },
{
    law_first_duplicate(voters);
}

/// The duplicate that is reported is a voter whose identifier occurred before,
/// and there is one exactly if some identifier occurs twice.
pub proof fn law_first_duplicate(voters: Seq<VoterView>)
    ensures
        first_duplicate(voters) is None <==> (forall|i: int, j: int|
            0 <= i < j < voters.len() ==> voters[i].node_id != voters[j].node_id),
        first_duplicate(voters) matches Some(id) ==> exists|i: int, j: int|
            0 <= i < j < voters.len() && voters[i].node_id == id && voters[j].node_id == id,
    decreases voters.len(),
{
    if voters.len() > 0 {
        let rest = voters.drop_last();
        let n = voters.len() - 1;
        law_first_duplicate(rest);
        if first_duplicate(rest) is Some {
            let id = first_duplicate(rest)->0;
            let (i, j) = choose|i: int, j: int|
                0 <= i < j < rest.len() && rest[i].node_id == id && rest[j].node_id == id;
            assert(voters[i].node_id == id && voters[j].node_id == id);
        } else if has_voter(rest, voters.last().node_id) {
            let k = choose|k: int|
                0 <= k < rest.len() && #[trigger] rest[k].node_id == voters.last().node_id;
            assert(voters[k].node_id == voters[n].node_id);
        } else {
            assert forall|i: int, j: int| 0 <= i < j < voters.len() implies voters[i].node_id
                != voters[j].node_id by {
                assert(rest[i].node_id == voters[i].node_id);
                if j < n {
                    assert(rest[j].node_id == voters[j].node_id);
                }
            }
        }
    }
}

/// Only a node that was never bootstrapped nor recovered, and is in no role yet,
/// may be bootstrapped; and only over empty stores, with arguments that are in
/// order.
pub proof fn law_bootstrap_conditions<S: StateMachine, L: Listener>(
    node: RaftNode<S, L>,
    cluster_id: ClusterId,
    voters: Seq<VoterView>,
    has_data: bool,
)
    ensures
        bootstrap_refused(node.bootstrapped, node.state.role) is None <==> !node.bootstrapped
            && node.state.role == Role::Unattached,
        node.bootstrap_failure(cluster_id, voters, has_data) is None <==> {
            &&& !node.bootstrapped
            &&& node.state.role == Role::Unattached
            &&& !has_data
            &&& cluster_id.0 != 0
            &&& has_voter(voters, node.state.node_id)
            &&& forall|i: int, j: int|
                0 <= i < j < voters.len() ==> voters[i].node_id != voters[j].node_id
        },
{
    law_bootstrap_arguments(node.state.node_id, cluster_id, voters);
}

/// A formed cluster starts in term zero with no vote and no leader; the node is
/// a follower with the given voters, cluster and election deadline, and its log
/// is untouched.
pub proof fn law_founded_state(
    s: NodeStateView,
    cluster_id: ClusterId,
    voters: Seq<VoterView>,
    deadline: u64,
)
    ensures
        ({
            let f = founded(s, cluster_id, voters, deadline);
            &&& f.current_term.0 == 0
            &&& f.voted_for is None
            &&& f.leader_id is None
            &&& f.role == Role::Follower
            &&& f.cluster_id == cluster_id
            &&& f.voter_set == voters
            &&& f.election_deadline == deadline
            &&& f.votes_received =~= Set::<u64>::empty()
            &&& f.pre_votes_received =~= Set::<u64>::empty()
            &&& f == (NodeStateView {
                cluster_id: f.cluster_id,
                voter_set: f.voter_set,
                current_term: f.current_term,
                voted_for: f.voted_for,
                leader_id: f.leader_id,
                role: f.role,
                votes_received: f.votes_received,
                pre_votes_received: f.pre_votes_received,
                election_deadline: f.election_deadline,
                ..s
            })
        }),
{
}

/// A node that belongs to a cluster takes messages of that cluster alone; one
/// that belongs to none yet takes all.
pub proof fn law_fence<S: StateMachine, L: Listener>(node: RaftNode<S, L>, cluster_id: ClusterId)
    ensures
        node.bootstrapped && node.state.cluster_id.0 != 0 ==> (node.fenced(cluster_id)
            <==> cluster_id != node.state.cluster_id),
        !node.bootstrapped || node.state.cluster_id.0 == 0 ==> !node.fenced(cluster_id),
{
}

/// A node without stored data starts in no role and can be bootstrapped; one
/// with stored data cannot. Where its state machine took the snapshot, or there
/// is none, it is a follower in the stored term and with the stored vote; where
/// the snapshot needs recovery it is in no role.
pub proof fn law_start<S: StateMachine, L: Listener>(
    node: RaftNode<S, L>,
    node_id: NodeId,
    stored: Option<StoredDataView>,
    restored: Option<Result<(), crate::error::XraftErrorView>>,
    now: u64,
    timeout: u64,
)
    requires
        RaftNode::started(node, node_id, stored, restored, now, timeout),
        now + timeout <= u64::MAX,
    ensures
        node.state.node_id == node_id,
        stored is None ==> !node.bootstrapped && node.state.role == Role::Unattached
            && node.state.current_term.0 == 0 && node.state.voted_for is None
            && node.state@.voter_set.len() == 0 && node.state.log_end_offset == 0,
        stored matches Some(d) ==> {
            &&& node.bootstrapped
            &&& restored matches Some(Err(_)) ==> node.state.role == Role::Unattached
            &&& !(restored matches Some(Err(_))) ==> node.state.role == Role::Follower
                && node.state.election_deadline == now + timeout && node.state.log_end_offset
                >= d.log_end_offset
            &&& d.quorum_state matches Some(q) ==> node.state.current_term == q.current_term
                && node.state.voted_for == q.voted_for && node.state.cluster_id == q.cluster_id
            &&& d.quorum_state is None ==> node.state.current_term.0 == 0 && node.state.voted_for
                is None
        },
{
}

/// A fresh node is in no role, in term zero, without vote, leader, voters or
/// log.
pub proof fn law_fresh_node(node_id: NodeId, cluster_id: ClusterId, now: u64)
    ensures
        ({
            let s = NodeStateView::unattached(node_id, cluster_id, now);
            &&& s.node_id == node_id && s.cluster_id == cluster_id
            &&& s.role == Role::Unattached && s.current_term.0 == 0 && s.voted_for is None
                && s.leader_id is None
            &&& s.log.len() == 0 && s.log_start_offset == 0 && s.log_end_offset == 0
                && s.high_watermark == 0 && s.last_log_term.0 == 0
            &&& s.voter_set.len() == 0 && s.votes_received.len() == 0
                && s.pre_votes_received.len() == 0
            &&& s.pending_membership_change is None
        }),
{
}

/// Votes and their answers are handled as such, the answer as one of the sender
/// of the message, and no other message changes anything.
pub proof fn law_messages_are_dispatched(
    s: NodeStateView,
    m: RpcEnvelopeView,
    deadline: u64,
)
    ensures
        m.payload matches RpcPayloadView::VoteRequest(req) ==> dispatched(s, m, deadline) == (
            requested(s, req, deadline).0,
            RpcStep::VoteRequest(req, requested(s, req, deadline).1),
        ),
        m.payload matches RpcPayloadView::VoteResponse(resp) ==> dispatched(s, m, deadline) == (
            responded(s, m.source, resp, deadline).0,
            RpcStep::VoteResponse(responded(s, m.source, resp, deadline).1),
        ),
        !(m.payload is VoteRequest) && !(m.payload is VoteResponse) ==> dispatched(s, m, deadline)
            == (s, RpcStep::Ignored),
        dispatched(s, m, deadline).0.current_term.0 >= s.current_term.0,
        keeps_log(s, dispatched(s, m, deadline).0),
{
}

} // verus!
