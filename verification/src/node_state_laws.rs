//! What the protocol state of a node promises: quorums, fetches on record, and
//! the entries held in memory.
use vstd::prelude::*;

use crate::consensus_state::Role;
use crate::log_entry::{contiguous, LogEntryView};
use crate::node_state::{
    entries_below, entries_between, majority_of, sorted_by_offset, NodeStateView,
};
use crate::types::{NodeId, Term};
use crate::voter::{has_voter, VoterView};

verus! {

/// A majority is more than half of the voters, and one voter less is not.
pub proof fn law_majority_is_least(count: nat)
    ensures
        2 * majority_of(count) > count,
        2 * (majority_of(count) - 1) <= count,
{
}

/// The quorum check passes exactly if the voters that are this node, or whose
/// last fetch is no further back than the interval, are more than half of all
/// voters.
pub proof fn law_quorum_check(s: NodeStateView, now: u64, interval: u64)
    ensures
        ({
            let heard = s.voter_set.filter(
                |v: VoterView|
                    {
                        ||| v.node_id == s.node_id
                        ||| s.follower_state.contains_key(v.node_id.0) && now
                            - s.follower_state[v.node_id.0].last_fetch_timestamp <= interval
                    },
            );
            s.quorum_active(now, interval) <==> 2 * heard.len() > s.voter_set.len()
        }),
{
    let heard = |v: VoterView|
        {
            ||| v.node_id == s.node_id
            ||| s.follower_state.contains_key(v.node_id.0) && now
                - s.follower_state[v.node_id.0].last_fetch_timestamp <= interval
        };
    let active = |v: VoterView| s.voter_active(v, now, interval);
    assert(heard =~= active);
    law_majority_is_least(s.voter_set.len());
}

/// A leader that passes the quorum check shares a voter with every set of
/// voters that could elect another leader: one that is this node, or that
/// fetched from it within the interval.
pub proof fn law_quorum_meets_every_majority(
    s: NodeStateView,
    now: u64,
    interval: u64,
    votes: Set<u64>,
)
    requires
        forall|i: int, j: int|
            0 <= i < j < s.voter_set.len() ==> s.voter_set[i].node_id != s.voter_set[j].node_id,
        forall|id: u64| #[trigger] votes.contains(id) ==> has_voter(s.voter_set, NodeId(id)),
        votes.finite(),
        2 * votes.len() > s.voter_set.len(),
        s.quorum_active(now, interval),
    ensures
        exists|i: int|
            {
                &&& 0 <= i < s.voter_set.len()
                &&& votes.contains((#[trigger] s.voter_set[i]).node_id.0)
                &&& {
                    ||| s.voter_set[i].node_id == s.node_id
                    ||| s.follower_state.contains_key(s.voter_set[i].node_id.0) && now
                        <= s.follower_state[s.voter_set[i].node_id.0].last_fetch_timestamp
                        + interval
                }
            },
{
    let active = |v: VoterView| s.voter_active(v, now, interval);
    law_quorum_check(s, now, interval);
    let heard = |v: VoterView|
        {
            ||| v.node_id == s.node_id
            ||| s.follower_state.contains_key(v.node_id.0) && now
                - s.follower_state[v.node_id.0].last_fetch_timestamp <= interval
        };
    assert(heard =~= active);
    let ids = ids_of(s.voter_set);
    let active_ids = ids_of(s.voter_set.filter(active));
    lemma_ids(s.voter_set, active);
    assert(votes.subset_of(ids)) by {
        assert forall|id: u64| #[trigger] votes.contains(id) implies ids.contains(id) by {
            let k = choose|k: int|
                0 <= k < s.voter_set.len() && #[trigger] s.voter_set[k].node_id == NodeId(id);
            lemma_ids_contain(s.voter_set, k);
        }
    }
    crate::election::law_majorities_intersect(ids, votes, active_ids);
    let id = choose|id: u64| votes.contains(id) && #[trigger] active_ids.contains(id);
    let i = choose|i: int|
        0 <= i < s.voter_set.len() && (#[trigger] s.voter_set[i]).node_id.0 == id && active(
            s.voter_set[i],
        );
    assert(votes.contains(s.voter_set[i].node_id.0));
}

/// The identifiers of voters.
spec fn ids_of(voters: Seq<VoterView>) -> Set<u64>
    decreases voters.len(),
{
    if voters.len() == 0 {
        Set::empty()
    } else {
        ids_of(voters.drop_last()).insert(voters.last().node_id.0)
    }
}

proof fn lemma_ids_contain(voters: Seq<VoterView>, k: int)
    requires
        0 <= k < voters.len(),
    ensures
        ids_of(voters).contains(voters[k].node_id.0),
    decreases voters.len(),
{
    if k < voters.len() - 1 {
        lemma_ids_contain(voters.drop_last(), k);
    }
}

/// Distinct voters have as many identifiers, and those that pass a test have
/// as many as pass it.
#[verifier::rlimit(60)]
#[verifier::spinoff_prover]
proof fn lemma_ids(voters: Seq<VoterView>, f: spec_fn(VoterView) -> bool)
    requires
        forall|i: int, j: int| 0 <= i < j < voters.len() ==> voters[i].node_id != voters[j].node_id,
    ensures
        ids_of(voters).finite(),
        ids_of(voters).len() == voters.len(),
        ids_of(voters.filter(f)).len() == voters.filter(f).len(),
        ids_of(voters.filter(f)).subset_of(ids_of(voters)),
        forall|id: u64| #[trigger]
            ids_of(voters.filter(f)).contains(id) ==> exists|i: int|
                0 <= i < voters.len() && (#[trigger] voters[i]).node_id.0 == id && f(voters[i]),
        forall|id: u64| #[trigger]
            ids_of(voters).contains(id) ==> exists|i: int|
                0 <= i < voters.len() && (#[trigger] voters[i]).node_id.0 == id,
    decreases voters.len(),
{
    reveal(Seq::filter);
    if voters.len() > 0 {
        let rest = voters.drop_last();
        let last = voters.last();
        lemma_ids(rest, f);
        assert forall|id: u64| #[trigger] ids_of(voters).contains(id) implies exists|i: int|
            0 <= i < voters.len() && (#[trigger] voters[i]).node_id.0 == id by {
            if ids_of(rest).contains(id) {
                let i = choose|i: int| 0 <= i < rest.len() && (#[trigger] rest[i]).node_id.0 == id;
                assert(voters[i].node_id.0 == id);
            } else {
                assert(voters[voters.len() - 1].node_id.0 == id);
            }
        }
        assert(!ids_of(rest).contains(last.node_id.0)) by {
            if ids_of(rest).contains(last.node_id.0) {
                let i = choose|i: int|
                    0 <= i < rest.len() && (#[trigger] rest[i]).node_id.0 == last.node_id.0;
                assert(voters[i].node_id == voters[voters.len() - 1].node_id);
            }
        }
        let kept = rest.filter(f);
        if f(last) {
            assert(voters.filter(f) == kept.push(last));
            assert(kept.push(last).drop_last() =~= kept);
        }
        assert forall|id: u64| #[trigger]
            ids_of(voters.filter(f)).contains(id) implies exists|i: int|
            0 <= i < voters.len() && (#[trigger] voters[i]).node_id.0 == id && f(voters[i]) by {
            if ids_of(kept).contains(id) {
                let i = choose|i: int|
                    0 <= i < rest.len() && (#[trigger] rest[i]).node_id.0 == id && f(rest[i]);
                assert(voters[i].node_id.0 == id && f(voters[i]));
            } else {
                assert(voters[voters.len() - 1].node_id.0 == id);
            }
        }
    }
}

/// A fetch keeps its sender active for the length of the interval and no
/// longer, is on record with its offset, and changes nothing for other voters.
pub proof fn law_fetch_keeps_active(
    s: NodeStateView,
    source: NodeId,
    fetch_offset: u64,
    at: u64,
    voter: VoterView,
    now: u64,
    interval: u64,
)
    ensures
        ({
            let after = s.with_fetch(source, fetch_offset, at);
            &&& voter.node_id == source && source != s.node_id ==> (after.voter_active(
                voter,
                now,
                interval,
            ) <==> now - at <= interval)
            &&& voter.node_id != source ==> after.voter_active(voter, now, interval)
                == s.voter_active(voter, now, interval)
            &&& after.follower_state.contains_key(source.0)
            &&& after.follower_state[source.0].node_id == source
            &&& after.follower_state[source.0].fetch_offset == fetch_offset
            &&& after.follower_state[source.0].is_voter == has_voter(s.voter_set, source)
            &&& after == (NodeStateView {
                follower_state: after.follower_state,
                ..s
            })
        }),
{
}

/// Without any fetch only the node itself is active, so a leader of several
/// voters that nobody fetches from fails the check, and a sole voter passes it.
pub proof fn law_silence_costs_the_quorum(s: NodeStateView, now: u64, interval: u64)
    requires
        s.follower_state == Map::<u64, crate::follower_progress::FollowerProgress>::empty(),
        forall|i: int, j: int|
            0 <= i < j < s.voter_set.len() ==> s.voter_set[i].node_id != s.voter_set[j].node_id,
    ensures
        s.voter_set.len() > 1 ==> !s.quorum_active(now, interval),
        s.voter_set.len() == 1 && s.voter_set[0].node_id == s.node_id ==> s.quorum_active(
            now,
            interval,
        ),
{
    let active = |v: VoterView| s.voter_active(v, now, interval);
    lemma_ids(s.voter_set, active);
    let found = ids_of(s.voter_set.filter(active));
    assert(found.subset_of(Set::<u64>::empty().insert(s.node_id.0)));
    vstd::set_lib::lemma_len_subset(found, Set::<u64>::empty().insert(s.node_id.0));
    if s.voter_set.len() == 1 && s.voter_set[0].node_id == s.node_id {
        reveal(Seq::filter);
        assert(s.voter_set.drop_last().filter(active) =~= seq![]);
        assert(s.voter_set.filter(active) =~= seq![s.voter_set[0]]);
    }
}

/// Entries that continue a log stand behind it unchanged, the log ends behind
/// the last of them, and its term is the term of the last entry of the log.
/// What is committed stays as it is.
pub proof fn law_append_extends_log(s: NodeStateView, entries: Seq<LogEntryView>)
    requires
        entries.len() > 0,
        contiguous(entries),
        entries[0].offset == s.log_end_offset,
        s.log_end_offset + entries.len() <= u64::MAX,
    ensures
        ({
            let after = s.with_entries(entries);
            &&& after.log.len() == s.log.len() + entries.len()
            &&& forall|i: int| 0 <= i < s.log.len() ==> #[trigger] after.log[i] == s.log[i]
            &&& forall|i: int|
                0 <= i < entries.len() ==> after.log[s.log.len() + i] == #[trigger] entries[i]
            &&& after.log_end_offset == s.log_end_offset + entries.len()
            &&& after.log_end_offset == after.log.last().offset + 1
            &&& after.last_log_term == after.log.last().term
            &&& after == (NodeStateView {
                log: after.log,
                log_end_offset: after.log_end_offset,
                last_log_term: after.last_log_term,
                ..s
            })
        }),
{
    let last = entries.len() - 1;
    assert(entries[last].offset == entries[0].offset + last);
}

/// A truncation keeps exactly the entries before its point, in their places.
/// The log then ends at the point, and where an entry went, its term is that
/// of the last entry left.
pub proof fn law_truncation_keeps_prefix(s: NodeStateView, point: u64)
    requires
        sorted_by_offset(s.log),
    ensures
        ({
            let after = s.truncated(point);
            &&& after.log.len() <= s.log.len()
            &&& forall|i: int|
                0 <= i < after.log.len() ==> #[trigger] after.log[i] == s.log[i]
                    && s.log[i].offset < point
            &&& forall|i: int|
                after.log.len() <= i < s.log.len() ==> (#[trigger] s.log[i]).offset >= point
            &&& after.log_end_offset == point
            &&& after.log.len() < s.log.len() && after.log.len() > 0 ==> after.last_log_term
                == after.log.last().term
            &&& after.log.len() < s.log.len() && after.log.len() == 0 ==> after.last_log_term
                == Term(0)
            &&& after.log.len() == s.log.len() ==> after.last_log_term == s.last_log_term
            &&& after == (NodeStateView {
                log: after.log,
                log_end_offset: after.log_end_offset,
                last_log_term: after.last_log_term,
                ..s
            })
        }),
{
    lemma_below_is_prefix(s.log, point);
}

proof fn lemma_below_is_prefix(log: Seq<LogEntryView>, point: u64)
    requires
        sorted_by_offset(log),
    ensures
        entries_below(log, point).len() <= log.len(),
        forall|i: int|
            0 <= i < entries_below(log, point).len() ==> #[trigger] entries_below(log, point)[i]
                == log[i] && log[i].offset < point,
        forall|i: int|
            entries_below(log, point).len() <= i < log.len() ==> (#[trigger] log[i]).offset
                >= point,
    decreases log.len(),
{
    reveal(Seq::filter);
    if log.len() > 0 {
        let rest = log.drop_last();
        lemma_below_is_prefix(rest, point);
        let kept = entries_below(rest, point);
        if log.last().offset < point {
            assert forall|i: int| 0 <= i < rest.len() implies (#[trigger] rest[i]).offset
                < point by {
                assert(log[i].offset < log[log.len() - 1].offset);
            }
            assert(kept.len() == rest.len()) by {
                if kept.len() < rest.len() {
                    assert(rest[kept.len() as int].offset >= point);
                }
            }
            assert(entries_below(log, point) == kept.push(log.last()));
        } else {
            assert(entries_below(log, point) == kept);
            assert forall|i: int| kept.len() <= i < log.len() implies (#[trigger] log[i]).offset
                >= point by {
                if i < rest.len() {
                    assert(rest[i].offset >= point);
                }
            }
        }
        let all = entries_below(log, point);
        assert forall|i: int| 0 <= i < all.len() implies #[trigger] all[i] == log[i]
            && log[i].offset < point by {
            if i < kept.len() {
                assert(all[i] == kept[i]);
                assert(kept[i] == rest[i]);
            }
        }
    }
}

/// The entries of a range are those of the log whose offsets lie in it, each
/// once, in the order of their offsets.
pub proof fn law_range_is_exact(log: Seq<LogEntryView>, start: u64, end: u64)
    requires
        sorted_by_offset(log),
    ensures
        ({
            let found = entries_between(log, start, end);
            &&& sorted_by_offset(found)
            &&& forall|e: LogEntryView| #[trigger]
                found.contains(e) <==> log.contains(e) && start <= e.offset && e.offset < end
        }),
    decreases log.len(),
{
    reveal(Seq::filter);
    if log.len() > 0 {
        let rest = log.drop_last();
        let last = log.last();
        law_range_is_exact(rest, start, end);
        let sub = entries_between(rest, start, end);
        let found = entries_between(log, start, end);
        assert forall|i: int| 0 <= i < sub.len() implies (#[trigger] sub[i]).offset
            < last.offset by {
            assert(sub.contains(sub[i]));
            let k = choose|k: int| 0 <= k < rest.len() && rest[k] == sub[i];
            assert(log[k].offset < log[log.len() - 1].offset);
        }
        assert forall|e: LogEntryView| #[trigger] found.contains(e) <==> log.contains(e) && start
            <= e.offset && e.offset < end by {
            if log.contains(e) {
                let k = choose|k: int| 0 <= k < log.len() && log[k] == e;
                if k < rest.len() {
                    assert(rest[k] == e);
                    assert(rest.contains(e));
                }
            }
            if rest.contains(e) {
                let k = choose|k: int| 0 <= k < rest.len() && rest[k] == e;
                assert(log[k] == e);
            }
            if sub.contains(e) {
                let k = choose|k: int| 0 <= k < sub.len() && sub[k] == e;
                assert(found[k] == e);
            }
            if e == last {
                assert(log[log.len() - 1] == e);
                if start <= e.offset < end {
                    assert(found[sub.len() as int] == e);
                }
            }
            if found.contains(e) {
                let k = choose|k: int| 0 <= k < found.len() && found[k] == e;
                if k < sub.len() {
                    assert(sub[k] == e);
                    assert(sub.contains(e));
                }
            }
        }
    }
}

/// Changing roles: a candidate stands for the next term with its own vote and
/// no leader, a follower of a term starts with no vote, and a leader keeps term
/// and vote and has heard of no follower yet. None of them touches the log or
/// what is committed.
pub proof fn law_roles(
    s: NodeStateView,
    term: Term,
    leader: Option<NodeId>,
    deadline: u64,
    now: u64,
    interval: u64,
)
    requires
        s.current_term.0 < u64::MAX,
        now + interval <= u64::MAX,
    ensures
        ({
            let c = s.as_candidate(deadline);
            let f = s.as_follower(term, leader, deadline);
            let l = s.as_leader(now, interval);
            &&& c.role == Role::Candidate && c.current_term.0 == s.current_term.0 + 1
            &&& c.voted_for == Some(s.node_id) && c.leader_id is None && c.election_deadline
                == deadline
            &&& forall|id: u64| #[trigger] c.votes_received.contains(id) <==> id == s.node_id.0
            &&& c.pre_votes_received =~= Set::<u64>::empty()
            &&& f.role == Role::Follower && f.current_term == term && f.voted_for is None
            &&& f.leader_id == leader && f.election_deadline == deadline
            &&& f.votes_received =~= Set::<u64>::empty() && f.pre_votes_received =~= Set::<
                u64,
            >::empty()
            &&& f.follower_state.dom() =~= Set::<u64>::empty()
            &&& l.role == Role::Leader && l.leader_id == Some(s.node_id)
            &&& l.current_term == s.current_term && l.voted_for == s.voted_for
            &&& l.follower_state.dom() =~= Set::<u64>::empty()
            &&& l.check_quorum_interval == interval && l.check_quorum_deadline == now + interval
            &&& keeps_log(s, c) && keeps_log(s, f) && keeps_log(s, l)
            &&& c == (NodeStateView {
                role: c.role,
                current_term: c.current_term,
                voted_for: c.voted_for,
                leader_id: c.leader_id,
                votes_received: c.votes_received,
                pre_votes_received: c.pre_votes_received,
                election_deadline: c.election_deadline,
                ..s
            })
            &&& f == (NodeStateView {
                role: f.role,
                current_term: f.current_term,
                voted_for: f.voted_for,
                leader_id: f.leader_id,
                votes_received: f.votes_received,
                pre_votes_received: f.pre_votes_received,
                follower_state: f.follower_state,
                election_deadline: f.election_deadline,
                ..s
            })
            &&& l == (NodeStateView {
                role: l.role,
                leader_id: l.leader_id,
                follower_state: l.follower_state,
                check_quorum_interval: l.check_quorum_interval,
                check_quorum_deadline: l.check_quorum_deadline,
                ..s
            })
        }),
{
}

/// Log, watermark, voters, observers, the records kept of committed entries and
/// the identity are the same.
pub open spec fn keeps_log(s: NodeStateView, t: NodeStateView) -> bool {
    &&& t.node_id == s.node_id && t.cluster_id == s.cluster_id
    &&& t.log == s.log
    &&& t.log_start_offset == s.log_start_offset
    &&& t.log_end_offset == s.log_end_offset
    &&& t.last_log_term == s.last_log_term
    &&& t.high_watermark == s.high_watermark
    &&& t.voter_set == s.voter_set && t.observers == s.observers
    &&& t.pending_membership_change == s.pending_membership_change
    &&& t.leader_epoch_checkpoint == s.leader_epoch_checkpoint
}

/// What a node shows of itself is its own term, role, leader, voters and the
/// boundaries of its log.
pub proof fn law_projection_shows_state(s: NodeStateView)
    ensures
        ({
            let p = s.projection();
            &&& p.node_id == s.node_id && p.current_term == s.current_term && p.role == s.role
            &&& p.leader_id == s.leader_id && p.voter_set == s.voter_set
            &&& p.log_end_offset == s.log_end_offset && p.high_watermark == s.high_watermark
        }),
{
}

} // verus!
