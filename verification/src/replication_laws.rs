//! What replication promises a follower: what it asks for, what it takes over,
//! and what it commits.
use vstd::prelude::*;

use crate::consensus_state::Role;
use crate::deferred_completion::QueueView;
use crate::error::XraftError;
use crate::io_action::{with_persist, IoActionView};
use crate::listener::Listener;
use crate::log_entry::{EntryType, LogEntryView};
use crate::node_state::{entries_between, sorted_by_offset, NodeStateView};
use crate::node_state_laws::{keeps_log, law_append_extends_log, law_truncation_keeps_prefix};
use crate::quorum_state::QuorumState;
use crate::raft_node::latest_voters;
use crate::raft_node_laws::names_voters;
use crate::replication::{
    append_actions, applied, commands, committed, first_chunk_request, first_gap,
    lemma_commands_empty, lemma_commands_push, lemma_no_gap, message_refused, noted_all,
    undecodable, validated, wait_for, DefaultSnapshotCoordinator, FetchPlan,
    FetchResponseResult, ReplicationManager, SnapshotCoordinator,
};
use crate::rpc::{
    FetchResponseView, FetchSnapshotRequest, RpcEnvelopeView, RpcPayloadView, SnapshotId,
};
use crate::traits::StateMachine;
use crate::types::{NodeId, Term};

verus! {

/// The recorded term of the last entry is that of the last entry held in
/// memory, where there is one.
pub open spec fn tail_known(s: NodeStateView) -> bool {
    s.log.len() > 0 ==> s.last_log_term == s.log.last().term
}

/// The action sends a fetch request to `to` for what follows `offset`, naming
/// `epoch` as the term of the last entry that the sender has.
pub open spec fn fetches(
    action: IoActionView,
    s: NodeStateView,
    to: NodeId,
    offset: u64,
    epoch: Term,
) -> bool {
    action matches IoActionView::SendRpc(n, m) && {
        &&& n == to
        &&& m.source == s.node_id
        &&& m.cluster_id == s.cluster_id
        &&& m.leader_epoch == s.current_term
        &&& m.payload matches RpcPayloadView::FetchRequest(req)
        &&& req.replica_id == s.node_id
        &&& req.fetch_offset == offset
        &&& req.last_fetched_epoch == epoch
    }
}

/// A follower with a known leader asks that leader for what follows its last
/// entry, and names the term of that entry, so that the leader can tell whether
/// the two logs are one up to there. Nobody else asks.
pub proof fn law_fetch_names_last_entry(mgr: ReplicationManager, s: NodeStateView)
    requires
        tail_known(s),
    ensures
        ({
            let sent = mgr.fetch_actions(s);
            &&& sent.len() == (if s.role == Role::Follower && s.leader_id is Some {
                1nat
            } else {
                0nat
            })
            &&& sent.len() == 1 ==> sent[0] is SendRpc && Some(sent[0]->SendRpc_0) == s.leader_id
            &&& sent.len() == 1 && s.log.len() > 0 && s.log.last().offset + 1 == s.log_end_offset
                ==> fetches(
                sent[0],
                s,
                s.leader_id->0,
                (s.log.last().offset + 1) as u64,
                s.log.last().term,
            )
            &&& sent.len() == 1 ==> fetches(
                sent[0],
                s,
                s.leader_id->0,
                s.log_end_offset,
                s.last_log_term,
            )
        }),
        mgr.fetch_request(s) is Some <==> s.role == Role::Follower && s.leader_id is Some,
        mgr.fetch_request(s) matches Some(m) ==> mgr.fetch_actions(s)[0] == IoActionView::SendRpc(
            m.0,
            m.1,
        ),
        mgr.fetch_request(s) matches Some(m) ==> (m.1.payload matches RpcPayloadView::FetchRequest(
            req,
        ) && req.max_bytes == mgr.max_fetch_bytes),
{
}

/// After entries were appended, the next request asks for what follows the last
/// of them and names its term, whatever term the node is in.
pub proof fn law_fetch_follows_append(
    mgr: ReplicationManager,
    s: NodeStateView,
    entries: Seq<LogEntryView>,
)
    requires
        entries.len() > 0,
        entries.last().offset < u64::MAX,
        s.role == Role::Follower,
        s.leader_id is Some,
    ensures
        mgr.fetch_actions(s.with_entries(entries)).len() == 1,
        fetches(
            mgr.fetch_actions(s.with_entries(entries))[0],
            s,
            s.leader_id->0,
            (entries.last().offset + 1) as u64,
            entries.last().term,
        ),
{
}

/// A tick of a follower whose fetch is due sends that request, where a leader
/// is known, and waits one interval for the next; any other tick does nothing.
pub proof fn law_tick_fetches(
    mgr: ReplicationManager,
    before: NodeStateView,
    now: u64,
    after: NodeStateView,
    batch: Seq<IoActionView>,
)
    requires
        mgr.ticked(before, now, after, batch),
        now + mgr.fetch_interval <= u64::MAX,
        tail_known(before),
    ensures
        now >= before.fetch_deadline && before.role == Role::Follower ==> {
            &&& after.fetch_deadline == now + mgr.fetch_interval
            &&& after == (NodeStateView { fetch_deadline: after.fetch_deadline, ..before })
            &&& before.leader_id is None ==> batch.len() == 0
            &&& before.leader_id matches Some(leader) ==> {
                &&& batch.len() == 1
                &&& fetches(batch[0], before, leader, before.log_end_offset, before.last_log_term)
                &&& before.log.len() > 0 ==> fetches(
                    batch[0],
                    before,
                    leader,
                    before.log_end_offset,
                    before.log.last().term,
                )
            }
        },
        now < before.fetch_deadline || before.role != Role::Follower ==> after == before
            && batch.len() == 0,
{
}

/// The timers: a fetch tick moves the fetch deadline alone, and a valid response
/// moves both deadlines, to one interval and one election timeout from now.
pub proof fn law_timers(mgr: ReplicationManager, s: NodeStateView, now: u64, election_timeout: u64)
    requires
        now + mgr.fetch_interval <= u64::MAX,
        now + election_timeout <= u64::MAX,
    ensures
        mgr.fetch_rearmed(s, now).fetch_deadline == now + mgr.fetch_interval,
        mgr.fetch_rearmed(s, now).election_deadline == s.election_deadline,
        mgr.timers_reset(s, now, election_timeout).fetch_deadline == now + mgr.fetch_interval,
        mgr.timers_reset(s, now, election_timeout).election_deadline == now + election_timeout,
        keeps_log(s, mgr.fetch_rearmed(s, now)),
        keeps_log(s, mgr.timers_reset(s, now, election_timeout)),
{
}

/// A response is accepted exactly if it is of a later term, or of this term to
/// a follower that knows no other leader and, where it knows this one, names
/// not both a snapshot and a divergence. The node is then a follower of the
/// response's leader in the response's term; a vote goes only with its term;
/// and what is new of term, vote and leader is saved.
pub proof fn law_response_accepted(s: NodeStateView, r: FetchResponseView)
    ensures
        ({
            let newer = r.leader_epoch.0 > s.current_term.0;
            &&& validated(s, r) is Ok <==> {
                ||| newer
                ||| {
                    &&& r.leader_epoch == s.current_term
                    &&& s.role == Role::Follower
                    &&& s.leader_id is None || s.leader_id == Some(r.leader_id)
                    &&& s.leader_id is Some ==> !(r.snapshot_id is Some && r.diverging_epoch
                        is Some)
                }
            }
            &&& validated(s, r) matches Ok((v, persist)) ==> {
                &&& v.current_term == r.leader_epoch
                &&& v.leader_id == Some(r.leader_id)
                &&& v.role == Role::Follower
                &&& v.voted_for == (if newer {
                    None
                } else {
                    s.voted_for
                })
                &&& newer ==> v.votes_received =~= Set::<u64>::empty() && v.pre_votes_received
                    =~= Set::<u64>::empty()
                &&& v == (NodeStateView {
                    current_term: v.current_term,
                    voted_for: v.voted_for,
                    leader_id: v.leader_id,
                    role: v.role,
                    votes_received: v.votes_received,
                    pre_votes_received: v.pre_votes_received,
                    ..s
                })
                &&& persist is Some <==> newer || s.leader_id is None
                &&& persist matches Some(q) ==> q.current_term == v.current_term && q.voted_for
                    == v.voted_for && q.leader_id == v.leader_id && q.leader_epoch
                    == v.current_term && q.cluster_id == s.cluster_id
            }
        }),
{
}

/// What a response leads to. A snapshot is fetched where one is named; a
/// divergence cuts the log at its point, or at the end of the log if that is
/// earlier, but never below what is committed; entries are taken exactly if
/// they continue the log without a gap; and everything else is rejected.
pub proof fn law_response_outcome(
    mgr: ReplicationManager,
    s: NodeStateView,
    r: FetchResponseView,
    now: u64,
    election_timeout: u64,
)
    ensures
        ({
            let plan = mgr.plan(s, r, now, election_timeout);
            let accepted = validated(s, r) is Ok && !(r.snapshot_id is Some && r.diverging_epoch
                is Some);
            let point = match r.diverging_epoch {
                Some(d) => if d.end_offset < s.log_end_offset {
                    d.end_offset
                } else {
                    s.log_end_offset
                },
                None => 0u64,
            };
            &&& plan is Transfer <==> accepted && r.snapshot_id is Some
            &&& plan is Truncate <==> accepted && r.diverging_epoch is Some && point
                >= s.high_watermark
            &&& plan is Append <==> {
                &&& accepted
                &&& r.snapshot_id is None && r.diverging_epoch is None
                &&& r.entries.len() > 0 ==> r.entries[0].offset == s.log_end_offset
                &&& forall|i: int|
                    0 <= i < r.entries.len() - 1 ==> (#[trigger] r.entries[i + 1]).offset
                        == r.entries[i].offset + 1
            }
            &&& plan matches FetchPlan::Transfer { state, leader_id, snapshot_id, persist } ==> {
                &&& leader_id == r.leader_id
                &&& Some(snapshot_id) == r.snapshot_id
                &&& keeps_log(s, state)
            }
            &&& plan matches FetchPlan::Truncate { state, point: at, persist } ==> at == point
            &&& plan matches FetchPlan::Reject { state, message } ==> keeps_log(s, state)
            &&& plan is Reject && validated(s, r) is Err ==> plan.state() == s
            &&& validated(s, r) is Ok ==> plan.state().current_term == r.leader_epoch
                && plan.state().leader_id == Some(r.leader_id) && plan.state().role
                == Role::Follower
            &&& accepted && now + election_timeout <= u64::MAX && now + mgr.fetch_interval
                <= u64::MAX ==> plan.state().election_deadline == now + election_timeout
                && plan.state().fetch_deadline == now + mgr.fetch_interval
        }),
{
    law_first_gap(r.entries, r.entries.len() - 1);
}

/// The gap that is found is the first: the two entries there do not follow each
/// other, and all before them do. None is found exactly if all do.
pub proof fn law_first_gap(entries: Seq<LogEntryView>, n: int)
    requires
        n < entries.len(),
    ensures
        first_gap(entries, n) matches Some(i) ==> {
            &&& 0 <= i < n
            &&& entries[i + 1].offset != entries[i].offset + 1
            &&& forall|k: int|
                0 <= k < i ==> (#[trigger] entries[k + 1]).offset == entries[k].offset + 1
        },
        first_gap(entries, n) is None ==> forall|k: int|
            0 <= k < n ==> (#[trigger] entries[k + 1]).offset == entries[k].offset + 1,
    decreases n,
{
    if n > 0 {
        law_first_gap(entries, n - 1);
        if first_gap(entries, n) is None {
            assert forall|k: int| 0 <= k < n implies (#[trigger] entries[k + 1]).offset
                == entries[k].offset + 1 by {
                if k == n - 1 {
                    assert(entries[n].offset == entries[n - 1].offset + 1);
                }
            }
        }
    }
}

/// A truncation on divergence keeps exactly the entries before its point, cuts
/// off nothing that is committed, forgets what went with the entries that were
/// cut (a pending membership change, leader epochs), and asks the leader again
/// from the point, naming the term of the last entry that is left.
pub proof fn law_divergence_truncates(
    mgr: ReplicationManager,
    s: NodeStateView,
    r: FetchResponseView,
    now: u64,
    election_timeout: u64,
)
    requires
        sorted_by_offset(s.log),
        tail_known(s),
    ensures
        mgr.plan(s, r, now, election_timeout) matches FetchPlan::Truncate { state, point, persist }
            ==> {
            &&& s.high_watermark <= point && point <= s.log_end_offset
            &&& state.high_watermark == s.high_watermark
            &&& state.log_end_offset == point
            &&& state.log.len() <= s.log.len()
            &&& forall|i: int|
                0 <= i < state.log.len() ==> #[trigger] state.log[i] == s.log[i]
                    && s.log[i].offset < point
            &&& forall|i: int|
                state.log.len() <= i < s.log.len() ==> (#[trigger] s.log[i]).offset >= point
            &&& s.pending_membership_change matches Some(p) ==> (p.offset < point
                ==> state.pending_membership_change == Some(p)) && (p.offset >= point
                ==> state.pending_membership_change is None)
            &&& s.pending_membership_change is None ==> state.pending_membership_change is None
            &&& forall|t: u64| #[trigger]
                state.leader_epoch_checkpoint.contains_key(t) <==> {
                    &&& s.leader_epoch_checkpoint.contains_key(t)
                    &&& s.leader_epoch_checkpoint[t] < point
                }
            &&& forall|t: u64|
                state.leader_epoch_checkpoint.contains_key(t)
                    ==> #[trigger] state.leader_epoch_checkpoint[t]
                    == s.leader_epoch_checkpoint[t]
            &&& state == (NodeStateView {
                current_term: state.current_term,
                voted_for: state.voted_for,
                leader_id: state.leader_id,
                role: state.role,
                votes_received: state.votes_received,
                pre_votes_received: state.pre_votes_received,
                election_deadline: state.election_deadline,
                fetch_deadline: state.fetch_deadline,
                log: state.log,
                log_end_offset: state.log_end_offset,
                last_log_term: state.last_log_term,
                pending_membership_change: state.pending_membership_change,
                leader_epoch_checkpoint: state.leader_epoch_checkpoint,
                ..s
            })
            &&& tail_known(state)
            &&& mgr.fetch_actions(state).len() == 1
            &&& fetches(
                mgr.fetch_actions(state)[0],
                state,
                r.leader_id,
                point,
                state.last_log_term,
            )
            &&& state.log.len() > 0 ==> fetches(
                mgr.fetch_actions(state)[0],
                state,
                r.leader_id,
                point,
                state.log.last().term,
            )
        },
{
    if let FetchPlan::Truncate { state, point, persist } = mgr.plan(s, r, now, election_timeout) {
        law_response_accepted(s, r);
        let (v, p) = validated(s, r)->Ok_0;
        let t = mgr.timers_reset(v, now, election_timeout);
        law_truncation_keeps_prefix(t, point);
    }
}

/// Entries of a response stand behind the log unchanged and in order, the log
/// ends behind them, and what is committed is what the leader has committed as
/// far as the log goes, and never less than before. The entries from the old to
/// the new watermark are those that get committed.
pub proof fn law_entries_are_taken(
    mgr: ReplicationManager,
    s: NodeStateView,
    r: FetchResponseView,
    now: u64,
    election_timeout: u64,
)
    requires
        s.log_end_offset + r.entries.len() <= u64::MAX,
        tail_known(s),
    ensures
        mgr.plan(s, r, now, election_timeout) matches FetchPlan::Append {
            state,
            old_hw,
            new_hw,
            persist,
        } ==> {
            let end = s.log_end_offset + r.entries.len();
            &&& state.log.len() == s.log.len() + r.entries.len()
            &&& forall|i: int| 0 <= i < s.log.len() ==> #[trigger] state.log[i] == s.log[i]
            &&& forall|i: int|
                0 <= i < r.entries.len() ==> state.log[s.log.len() + i]
                    == #[trigger] r.entries[i]
            &&& forall|i: int|
                0 <= i < r.entries.len() ==> (#[trigger] r.entries[i]).offset
                    == s.log_end_offset + i
            &&& state.log_end_offset == end
            &&& state.high_watermark >= s.high_watermark
            &&& state.high_watermark == s.high_watermark || state.high_watermark
                == r.high_watermark || state.high_watermark == end
            &&& state.high_watermark > s.high_watermark ==> state.high_watermark
                <= r.high_watermark && state.high_watermark <= end
            &&& state.high_watermark >= r.high_watermark || state.high_watermark >= end
            &&& old_hw == s.high_watermark
            &&& new_hw > old_hw <==> state.high_watermark > s.high_watermark
            &&& new_hw > old_hw ==> new_hw == state.high_watermark
            &&& tail_known(state)
            &&& r.entries.len() > 0 ==> state.last_log_term == r.entries.last().term
            &&& state.current_term == r.leader_epoch
            &&& state.leader_id == Some(r.leader_id)
            &&& state.role == Role::Follower
            &&& state == (NodeStateView {
                current_term: state.current_term,
                voted_for: state.voted_for,
                leader_id: state.leader_id,
                role: state.role,
                votes_received: state.votes_received,
                pre_votes_received: state.pre_votes_received,
                election_deadline: state.election_deadline,
                fetch_deadline: state.fetch_deadline,
                log: state.log,
                log_end_offset: state.log_end_offset,
                last_log_term: state.last_log_term,
                high_watermark: state.high_watermark,
                ..s
            })
        },
{
    if mgr.plan(s, r, now, election_timeout) is Append {
        law_response_accepted(s, r);
        let (v, p) = validated(s, r)->Ok_0;
        let t = mgr.timers_reset(v, now, election_timeout);
        if r.entries.len() > 0 {
            lemma_no_gap(r.entries, r.entries.len() - 1);
            law_append_extends_log(t, r.entries);
        }
    }
}

/// Whatever comes of a response, a node whose record of its last entry was right
/// still has it right.
pub proof fn law_tail_stays_known(
    mgr: ReplicationManager,
    s: NodeStateView,
    r: FetchResponseView,
    now: u64,
    election_timeout: u64,
)
    requires
        sorted_by_offset(s.log),
        tail_known(s),
        mgr.plan(s, r, now, election_timeout) is Append ==> s.log_end_offset + r.entries.len()
            <= u64::MAX,
    ensures
        tail_known(mgr.plan(s, r, now, election_timeout).state()),
{
    law_response_accepted(s, r);
    law_response_outcome(mgr, s, r, now, election_timeout);
    law_divergence_truncates(mgr, s, r, now, election_timeout);
    if mgr.plan(s, r, now, election_timeout) is Append {
        law_entries_are_taken(mgr, s, r, now, election_timeout);
    }
}

/// Committing entries leaves the node with the voters of the last voters record
/// among them, or those it had; clears a pending membership change that a
/// voters record at or behind it settles; and records where each leader's epoch
/// starts. Term, vote, role and log stay as they are.
#[verifier::rlimit(60)]
#[verifier::spinoff_prover]
pub proof fn law_commit_updates_records(s: NodeStateView, entries: Seq<LogEntryView>)
    ensures
        ({
            let after = noted_all(s, entries);
            &&& after.voter_set == (match latest_voters(entries) {
                Some(v) => v,
                None => s.voter_set,
            })
            &&& s.pending_membership_change is None ==> after.pending_membership_change is None
            &&& s.pending_membership_change matches Some(p) ==> {
                let settled = exists|i: int|
                    0 <= i < entries.len() && names_voters(#[trigger] entries[i]) && p.offset
                        <= entries[i].offset;
                &&& settled ==> after.pending_membership_change is None
                &&& !settled ==> after.pending_membership_change == Some(p)
            }
            &&& forall|t: u64| #[trigger]
                after.leader_epoch_checkpoint.contains_key(t) <==> {
                    ||| s.leader_epoch_checkpoint.contains_key(t)
                    ||| exists|i: int|
                        0 <= i < entries.len() && opens_epoch(#[trigger] entries[i], t)
                }
            &&& forall|t: u64|
                #![trigger after.leader_epoch_checkpoint[t]]
                (forall|i: int| 0 <= i < entries.len() ==> !opens_epoch(#[trigger] entries[i], t))
                    && s.leader_epoch_checkpoint.contains_key(t)
                    ==> after.leader_epoch_checkpoint[t] == s.leader_epoch_checkpoint[t]
            &&& forall|i: int|
                #![trigger entries[i]]
                0 <= i < entries.len() && entries[i].entry_type == EntryType::LeaderChangeMessage
                    && (forall|j: int|
                    i < j < entries.len() ==> !opens_epoch(
                        #[trigger] entries[j],
                        entries[i].term.0,
                    )) ==> after.leader_epoch_checkpoint[entries[i].term.0] == entries[i].offset
            &&& after == (NodeStateView {
                voter_set: after.voter_set,
                pending_membership_change: after.pending_membership_change,
                leader_epoch_checkpoint: after.leader_epoch_checkpoint,
                ..s
            })
        }),
    decreases entries.len(),
{
    let after = noted_all(s, entries);
    if entries.len() == 0 {
        assert(after =~= (NodeStateView {
            voter_set: after.voter_set,
            pending_membership_change: after.pending_membership_change,
            leader_epoch_checkpoint: after.leader_epoch_checkpoint,
            ..s
        }));
    } else {
        let rest = entries.drop_last();
        let n = entries.len() - 1;
        let e = entries.last();
        law_commit_updates_records(s, rest);
        let before = noted_all(s, rest);
        assert(entries[n] == e);
        assert(forall|i: int| 0 <= i < rest.len() ==> #[trigger] rest[i] == entries[i]);
        if let Some(p) = s.pending_membership_change {
            let settled = exists|i: int|
                0 <= i < entries.len() && names_voters(#[trigger] entries[i]) && p.offset
                    <= entries[i].offset;
            let earlier = exists|i: int|
                0 <= i < rest.len() && names_voters(#[trigger] rest[i]) && p.offset
                    <= rest[i].offset;
            if earlier {
                let i = choose|i: int|
                    0 <= i < rest.len() && names_voters(#[trigger] rest[i]) && p.offset
                        <= rest[i].offset;
                assert(names_voters(entries[i]) && p.offset <= entries[i].offset);
            }
            if settled && !(names_voters(e) && p.offset <= e.offset) {
                let i = choose|i: int|
                    0 <= i < entries.len() && names_voters(#[trigger] entries[i]) && p.offset
                        <= entries[i].offset;
                assert(names_voters(rest[i]) && p.offset <= rest[i].offset);
            }
        }
        assert forall|t: u64| #[trigger] after.leader_epoch_checkpoint.contains_key(t) <==> {
            ||| s.leader_epoch_checkpoint.contains_key(t)
            ||| exists|i: int| 0 <= i < entries.len() && opens_epoch(#[trigger] entries[i], t)
        } by {
            if exists|i: int| 0 <= i < rest.len() && opens_epoch(#[trigger] rest[i], t) {
                let i = choose|i: int| 0 <= i < rest.len() && opens_epoch(#[trigger] rest[i], t);
                assert(opens_epoch(entries[i], t));
            }
            if exists|i: int| 0 <= i < entries.len() && opens_epoch(#[trigger] entries[i], t) {
                let i = choose|i: int|
                    0 <= i < entries.len() && opens_epoch(#[trigger] entries[i], t);
                if i < n {
                    assert(opens_epoch(rest[i], t));
                }
            }
            if opens_epoch(e, t) {
                assert(opens_epoch(entries[n], t));
            }
        }
        assert forall|t: u64|
            #![trigger after.leader_epoch_checkpoint[t]]
            (forall|i: int| 0 <= i < entries.len() ==> !opens_epoch(#[trigger] entries[i], t))
                && s.leader_epoch_checkpoint.contains_key(
                t,
            ) implies after.leader_epoch_checkpoint[t] == s.leader_epoch_checkpoint[t] by {
            assert(!opens_epoch(entries[n], t));
            assert forall|i: int| 0 <= i < rest.len() implies !opens_epoch(
                #[trigger] rest[i],
                t,
            ) by {
                assert(!opens_epoch(entries[i], t));
            }
            assert(before.leader_epoch_checkpoint[t] == s.leader_epoch_checkpoint[t]);
        }
        assert forall|i: int|
            #![trigger entries[i]]
            0 <= i < entries.len() && entries[i].entry_type == EntryType::LeaderChangeMessage && (
            forall|j: int|
                i < j < entries.len() ==> !opens_epoch(
                    #[trigger] entries[j],
                    entries[i].term.0,
                )) implies after.leader_epoch_checkpoint[entries[i].term.0]
            == entries[i].offset by {
            if i < n {
                assert(!opens_epoch(entries[n], entries[i].term.0));
                assert(rest[i] == entries[i]);
                assert forall|j: int| i < j < rest.len() implies !opens_epoch(
                    #[trigger] rest[j],
                    rest[i].term.0,
                ) by {
                    assert(!opens_epoch(entries[j], entries[i].term.0));
                }
            }
        }
        assert(after =~= (NodeStateView {
            voter_set: after.voter_set,
            pending_membership_change: after.pending_membership_change,
            leader_epoch_checkpoint: after.leader_epoch_checkpoint,
            ..s
        }));
    }
}

/// The first entry of the leader of `term`.
pub open spec fn opens_epoch(e: LogEntryView, term: u64) -> bool {
    e.entry_type == EntryType::LeaderChangeMessage && e.term.0 == term
}

/// The application is handed exactly the commands among the entries, with their
/// offsets and payloads, in their order.
#[verifier::rlimit(60)]
#[verifier::spinoff_prover]
pub proof fn law_commands_are_handed_out(entries: Seq<LogEntryView>)
    ensures
        commands(entries).len() == entries.filter(
            |e: LogEntryView| e.entry_type == EntryType::Command,
        ).len(),
        forall|c: (u64, Seq<u8>)| #[trigger]
            commands(entries).contains(c) <==> exists|i: int|
                0 <= i < entries.len() && is_command(#[trigger] entries[i], c),
        sorted_by_offset(entries) ==> forall|i: int, j: int|
            0 <= i < j < commands(entries).len() ==> (#[trigger] commands(entries)[i]).0 < (
            #[trigger] commands(entries)[j]).0,
    decreases entries.len(),
{
    if entries.len() == 0 {
        lemma_commands_empty();
        assert(entries =~= Seq::<LogEntryView>::empty());
    } else {
        let rest = entries.drop_last();
        let n = entries.len() - 1;
        let e = entries.last();
        law_commands_are_handed_out(rest);
        lemma_commands_push(rest, e);
        assert(rest.push(e) =~= entries);
        let all = commands(entries);
        let before = commands(rest);
        assert(entries[n] == e);
        assert forall|c: (u64, Seq<u8>)| #[trigger] all.contains(c) <==> exists|i: int|
            0 <= i < entries.len() && is_command(#[trigger] entries[i], c) by {
            if all.contains(c) {
                let k = choose|k: int| 0 <= k < all.len() && all[k] == c;
                if k < before.len() {
                    assert(before[k] == c);
                    assert(before.contains(c));
                    let i = choose|i: int| 0 <= i < rest.len() && is_command(#[trigger] rest[i], c);
                    assert(is_command(entries[i], c));
                } else {
                    assert(is_command(entries[n], c));
                }
            }
            if exists|i: int| 0 <= i < entries.len() && is_command(#[trigger] entries[i], c) {
                let i = choose|i: int|
                    0 <= i < entries.len() && is_command(#[trigger] entries[i], c);
                if i < n {
                    assert(is_command(rest[i], c));
                    assert(before.contains(c));
                    let k = choose|k: int| 0 <= k < before.len() && before[k] == c;
                    assert(all[k] == c);
                } else {
                    assert(all[before.len() as int] == c);
                }
            }
        }
        if sorted_by_offset(entries) {
            assert(sorted_by_offset(rest));
            assert forall|i: int| 0 <= i < before.len() implies (#[trigger] before[i]).0
                < e.offset by {
                assert(before.contains(before[i]));
                let k = choose|k: int|
                    0 <= k < rest.len() && is_command(#[trigger] rest[k], before[i]);
                assert(entries[k].offset < entries[n].offset);
            }
            assert forall|i: int, j: int| 0 <= i < j < all.len() implies (#[trigger] all[i]).0 < (
            #[trigger] all[j]).0 by {
                assert(all[i] == before[i]);
                if j < before.len() {
                    assert(all[j] == before[j]);
                }
            }
        }
    }
}

/// The entry is a command with this offset and payload.
pub open spec fn is_command(e: LogEntryView, c: (u64, Seq<u8>)) -> bool {
    e.entry_type == EntryType::Command && c.0 == e.offset && c.1 == e.payload
}

/// A state machine that took over the commands of some entries went through one
/// state after the other, one command each, in order, and refused none.
pub proof fn law_commands_are_applied_once<S: StateMachine>(
    before: S,
    entries: Seq<LogEntryView>,
    after: S,
)
    requires
        applied(before, entries, after),
    ensures
        exists|states: Seq<S>| #[trigger] runs_through(states, before, commands(entries), after),
    decreases entries.len(),
{
    if entries.len() == 0 {
        lemma_commands_empty();
        assert(entries =~= Seq::<LogEntryView>::empty());
        assert(runs_through(seq![before], before, commands(entries), after));
    } else {
        let rest = entries.drop_last();
        let e = entries.last();
        lemma_commands_push(rest, e);
        assert(rest.push(e) =~= entries);
        if e.entry_type == EntryType::Command {
            let mid = choose|mid: S|
                {
                    &&& applied(before, rest, mid)
                    &&& #[trigger] mid.apply_step(e.offset, e.payload, &after, Ok(()))
                };
            law_commands_are_applied_once(before, rest, mid);
            let states = choose|states: Seq<S>| #[trigger]
                runs_through(states, before, commands(rest), mid);
            let more = states.push(after);
            let cmds = commands(entries);
            assert forall|i: int| 0 <= i < cmds.len() implies (#[trigger] more[i]).apply_step(
                cmds[i].0,
                cmds[i].1,
                &more[i + 1],
                Ok(()),
            ) by {
                if i < commands(rest).len() {
                    assert(more[i] == states[i]);
                    assert(more[i + 1] == states[i + 1]);
                    assert(cmds[i] == commands(rest)[i]);
                }
            }
            assert(runs_through(more, before, cmds, after));
        } else {
            law_commands_are_applied_once(before, rest, after);
        }
    }
}

/// The states lead from `before` to `after`, one command each.
pub open spec fn runs_through<S: StateMachine>(
    states: Seq<S>,
    before: S,
    cmds: Seq<(u64, Seq<u8>)>,
    after: S,
) -> bool {
    &&& states.len() == cmds.len() + 1
    &&& states[0] == before
    &&& states.last() == after
    &&& forall|i: int|
        0 <= i < cmds.len() ==> (#[trigger] states[i]).apply_step(
            cmds[i].0,
            cmds[i].1,
            &states[i + 1],
            Ok(()),
        )
}

/// A commit that succeeds applied every command among the entries once and in
/// order, told the listener of exactly these in one batch, and met no voters
/// record that does not decode; whatever comes of it, log, watermark, term and
/// vote stay as they are.
pub proof fn law_commit_applies_and_tells<S: StateMachine, L: Listener>(
    entries: Seq<LogEntryView>,
    s_before: NodeStateView,
    s_after: NodeStateView,
    sm_before: S,
    sm_after: S,
    l_before: L,
    l_after: L,
    result: Result<(), crate::error::XraftErrorView>,
)
    requires
        committed(
            entries,
            s_before,
            s_after,
            sm_before,
            sm_after,
            l_before,
            l_after,
            result,
        ),
    ensures
        result is Ok ==> {
            &&& exists|states: Seq<S>| #[trigger]
                runs_through(states, sm_before, commands(entries), sm_after)
            &&& l_before.commit_step(commands(entries), &l_after)
            &&& forall|i: int|
                0 <= i < entries.len() && (#[trigger] entries[i]).entry_type
                    == EntryType::VotersRecord ==> names_voters(entries[i])
            &&& s_after.voter_set == (match latest_voters(entries) {
                Some(v) => v,
                None => s_before.voter_set,
            })
        },
        s_after.log == s_before.log,
        s_after.log_end_offset == s_before.log_end_offset,
        s_after.high_watermark == s_before.high_watermark,
        s_after.last_log_term == s_before.last_log_term,
        s_after.current_term == s_before.current_term,
        s_after.voted_for == s_before.voted_for,
        s_after.role == s_before.role,
{
    if result is Ok {
        law_commands_are_applied_once(sm_before, entries, sm_after);
        law_commit_updates_records(s_before, entries);
        assert forall|i: int|
            0 <= i < entries.len() && (#[trigger] entries[i]).entry_type
                == EntryType::VotersRecord implies names_voters(entries[i]) by {
            assert(!undecodable(entries[i]));
        }
    } else {
        let k = choose|k: int|
            {
                &&& 0 <= k < entries.len()
                &&& forall|i: int| 0 <= i < k ==> !undecodable(#[trigger] entries[i])
                &&& s_after == noted_all(s_before, #[trigger] entries.take(k))
            };
        law_commit_updates_records(s_before, entries.take(k));
    }
}

/// A commit that fails stops at the first entry that the state machine refuses
/// or whose voters record does not decode. The commands before it were applied
/// once and in order; after a refusal the listener is told to shut down, and
/// otherwise it hears nothing.
pub proof fn law_failed_commit_stops<S: StateMachine, L: Listener>(
    entries: Seq<LogEntryView>,
    s_before: NodeStateView,
    s_after: NodeStateView,
    sm_before: S,
    sm_after: S,
    l_before: L,
    l_after: L,
    error: crate::error::XraftErrorView,
)
    requires
        committed(
            entries,
            s_before,
            s_after,
            sm_before,
            sm_after,
            l_before,
            l_after,
            Err(error),
        ),
    ensures
        error is StateMachineApplyError ==> l_before.shutdown_step(&l_after),
        !(error is StateMachineApplyError) ==> l_after == l_before,
        exists|k: int, mid: S, states: Seq<S>|
            {
                &&& 0 <= k < entries.len()
                &&& s_after == noted_all(s_before, entries.take(k))
                &&& #[trigger] runs_through(states, sm_before, commands(entries.take(k)), mid)
                &&& error is StateMachineApplyError ==> entries[k].entry_type
                    == EntryType::Command && exists|cause: crate::error::XraftErrorView| #[trigger]
                    mid.apply_step(entries[k].offset, entries[k].payload, &sm_after, Err(cause))
                &&& !(error is StateMachineApplyError) ==> entries[k].entry_type
                    == EntryType::VotersRecord && !names_voters(entries[k]) && sm_after == mid
            },
{
    let k = choose|k: int|
        {
            &&& 0 <= k < entries.len()
            &&& forall|i: int| 0 <= i < k ==> !undecodable(#[trigger] entries[i])
            &&& s_after == noted_all(s_before, #[trigger] entries.take(k))
            &&& {
                ||| crate::replication::refused_at(
                    entries,
                    k,
                    sm_before,
                    sm_after,
                    l_before,
                    l_after,
                    error,
                )
                ||| crate::replication::malformed_at(
                    entries,
                    k,
                    sm_before,
                    sm_after,
                    l_before,
                    l_after,
                    error,
                )
            }
        };
    let done = entries.take(k);
    if error is StateMachineApplyError {
        let (mid, cause) = choose|mid: S, cause: crate::error::XraftErrorView|
            {
                &&& #[trigger] applied(sm_before, done, mid)
                &&& #[trigger] mid.apply_step(
                    entries[k].offset,
                    entries[k].payload,
                    &sm_after,
                    Err(cause),
                )
            };
        law_commands_are_applied_once(sm_before, done, mid);
        let states = choose|states: Seq<S>| #[trigger]
            runs_through(states, sm_before, commands(done), mid);
        assert(runs_through(states, sm_before, commands(entries.take(k)), mid));
    } else {
        law_commands_are_applied_once(sm_before, done, sm_after);
        let states = choose|states: Seq<S>| #[trigger]
            runs_through(states, sm_before, commands(done), sm_after);
        assert(runs_through(states, sm_before, commands(entries.take(k)), sm_after));
    }
}

/// The actions of a response end with saving what is new of term, vote and
/// leader, where anything is; before that, entries are appended as received.
pub proof fn law_response_actions(
    batch: Seq<IoActionView>,
    persist: Option<QuorumState>,
    entries: Seq<LogEntryView>,
)
    ensures
        persist matches Some(q) ==> with_persist(batch, persist).len() == batch.len() + 1
            && with_persist(batch, persist).last() == IoActionView::PersistQuorumState(q)
            && with_persist(batch, persist).drop_last() == batch,
        persist is None ==> with_persist(batch, persist) == batch,
        entries.len() > 0 ==> append_actions(entries).len() == 1 && append_actions(entries)[0]
            == IoActionView::AppendLog(entries),
        entries.len() == 0 ==> append_actions(entries).len() == 0,
{
    if let Some(q) = persist {
        assert(with_persist(batch, persist).drop_last() =~= batch);
    }
}

/// A message reaches the fetch pipeline exactly if it is of the node's own
/// cluster and a fetch response sent by the leader that it names.
pub proof fn law_pipeline_takes(s: NodeStateView, m: RpcEnvelopeView)
    ensures
        message_refused(s, m) is None <==> {
            &&& m.cluster_id == s.cluster_id
            &&& m.payload matches RpcPayloadView::FetchResponse(r) && r.leader_id == m.source
        },
        m.cluster_id != s.cluster_id ==> message_refused(s, m) == Some(
            crate::error::XraftErrorView::InvalidClusterId,
        ),
{
}

/// A snapshot is asked for from its first byte on, in the node's own name and
/// term, and by the identity that the leader named.
pub proof fn law_transfer_starts_at_zero(s: NodeStateView, id: SnapshotId, max_bytes: u32)
    ensures
        ({
            let m = first_chunk_request(s, id, max_bytes);
            &&& m.source == s.node_id
            &&& m.cluster_id == s.cluster_id
            &&& m.leader_epoch == s.current_term
            &&& m.payload == RpcPayloadView::FetchSnapshotRequest(
                FetchSnapshotRequest { snapshot_id: id, position: 0, max_bytes },
            )
        }),
{
}

/// What is done with a response that was taken for its entries: they are
/// appended in one action, then what is new of term, vote and leader is saved.
/// The entries of the log from the old watermark up to before the new one are
/// committed, and every proposal waiting below the new watermark is told of it.
/// Without a higher watermark nothing is committed and nobody is told.
#[verifier::rlimit(60)]
#[verifier::spinoff_prover]
pub proof fn law_taken_entries_are_committed<
    S: StateMachine,
    L: Listener,
    SC: SnapshotCoordinator,
>(
    mgr: ReplicationManager,
    s: NodeStateView,
    r: FetchResponseView,
    now: u64,
    election_timeout: u64,
    s_after: NodeStateView,
    sm_before: S,
    sm_after: S,
    l_before: L,
    l_after: L,
    q_before: QueueView,
    q_after: QueueView,
    sc_before: SC,
    sc_after: SC,
    result: Result<FetchResponseResult, XraftError>,
)
    requires
        mgr.plan(s, r, now, election_timeout) is Append,
        s.log_end_offset + r.entries.len() <= u64::MAX,
        tail_known(s),
        sorted_by_offset(mgr.plan(s, r, now, election_timeout).state().log),
        mgr.handled(
            mgr.plan(s, r, now, election_timeout),
            r.entries,
            s_after,
            sm_before,
            sm_after,
            l_before,
            l_after,
            q_before,
            q_after,
            sc_before,
            sc_after,
            result,
        ),
    ensures
        ({
            let t = mgr.plan(s, r, now, election_timeout).state();
            let newly = entries_between(t.log, s.high_watermark, t.high_watermark);
            &&& s_after.high_watermark == t.high_watermark
            &&& s_after.log == t.log
            &&& s_after.log_end_offset == t.log_end_offset
            &&& s_after.last_log_term == t.last_log_term
            &&& tail_known(s_after)
            &&& sc_after == sc_before
            &&& t.high_watermark == s.high_watermark ==> {
                &&& result is Ok
                &&& sm_after == sm_before
                &&& l_after == l_before
                &&& q_after == q_before
            }
            &&& t.high_watermark > s.high_watermark && result is Ok ==> {
                &&& forall|e: LogEntryView| #[trigger]
                    newly.contains(e) <==> t.log.contains(e) && s.high_watermark <= e.offset
                        && e.offset < t.high_watermark
                &&& sorted_by_offset(newly)
                &&& exists|states: Seq<S>| #[trigger]
                    runs_through(states, sm_before, commands(newly), sm_after)
                &&& l_before.commit_step(commands(newly), &l_after)
                &&& forall|offset: u64| #[trigger]
                    q_before.pending.contains_key(offset) ==> (q_after.pending.contains_key(offset)
                        <==> offset >= t.high_watermark)
            }
            &&& result is Err ==> q_after == q_before
            &&& result matches Ok(res) ==> {
                let actions = res.io_batch@;
                let n: int = if r.entries.len() > 0 {
                    1
                } else {
                    0
                };
                &&& !res.snapshot_transfer_initiated
                &&& n == 1 ==> actions[0] == IoActionView::AppendLog(r.entries)
                &&& r.leader_epoch.0 > s.current_term.0 || s.leader_id is None ==> {
                    &&& actions.len() == n + 1
                    &&& actions[n] matches IoActionView::PersistQuorumState(q) && q.current_term
                        == r.leader_epoch && q.leader_id == Some(r.leader_id)
                }
                &&& r.leader_epoch == s.current_term && s.leader_id is Some ==> actions.len() == n
            }
        }),
{
    law_entries_are_taken(mgr, s, r, now, election_timeout);
    law_response_accepted(s, r);
    let plan = mgr.plan(s, r, now, election_timeout);
    let t = plan.state();
    if let FetchPlan::Append { state, old_hw, new_hw, persist } = plan {
        if new_hw > old_hw {
            crate::node_state_laws::law_range_is_exact(t.log, s.high_watermark, t.high_watermark);
            law_commit_applies_and_tells(
                entries_between(t.log, old_hw, new_hw),
                t,
                s_after,
                sm_before,
                sm_after,
                l_before,
                l_after,
                match result {
                    Ok(_) => Ok(()),
                    Err(e) => Err(e@),
                },
            );
        }
        law_response_actions(append_actions(r.entries), persist, r.entries);
    }
}

/// What is done with a response that names a divergence: the stored log is cut
/// at the point, then the leader is asked again, and then what is new of term,
/// vote and leader is saved; proposals from the point on fail, those before it
/// wait on, and nothing is committed.
pub proof fn law_divergence_actions<S: StateMachine, L: Listener, SC: SnapshotCoordinator>(
    mgr: ReplicationManager,
    s: NodeStateView,
    r: FetchResponseView,
    now: u64,
    election_timeout: u64,
    s_after: NodeStateView,
    sm_before: S,
    sm_after: S,
    l_before: L,
    l_after: L,
    q_before: QueueView,
    q_after: QueueView,
    sc_before: SC,
    sc_after: SC,
    result: Result<FetchResponseResult, XraftError>,
)
    requires
        mgr.plan(s, r, now, election_timeout) is Truncate,
        sorted_by_offset(s.log),
        tail_known(s),
        mgr.handled(
            mgr.plan(s, r, now, election_timeout),
            r.entries,
            s_after,
            sm_before,
            sm_after,
            l_before,
            l_after,
            q_before,
            q_after,
            sc_before,
            sc_after,
            result,
        ),
    ensures
        sm_after == sm_before && l_after == l_before && sc_after == sc_before,
        forall|offset: u64| #[trigger]
            q_after.pending.contains_key(offset) <==> q_before.pending.contains_key(offset)
                && offset < s_after.log_end_offset,
        q_after.sent == q_before.sent,
        s_after.high_watermark == s.high_watermark,
        result matches Ok(res) && {
            let actions = res.io_batch@;
            &&& !res.snapshot_transfer_initiated
            &&& actions.len() >= 2
            &&& actions[0] == IoActionView::TruncateSuffix(s_after.log_end_offset)
            &&& fetches(
                actions[1],
                s_after,
                r.leader_id,
                s_after.log_end_offset,
                s_after.last_log_term,
            )
            &&& s_after.log.len() > 0 ==> s_after.last_log_term == s_after.log.last().term
            &&& r.leader_epoch.0 > s.current_term.0 || s.leader_id is None ==> actions.len() == 3
                && (actions[2] matches IoActionView::PersistQuorumState(q) && q.current_term
                == r.leader_epoch && q.leader_id == Some(r.leader_id))
            &&& r.leader_epoch == s.current_term && s.leader_id is Some ==> actions.len() == 2
        },
{
    law_divergence_truncates(mgr, s, r, now, election_timeout);
    law_response_accepted(s, r);
    if let FetchPlan::Truncate { state, point, persist } = mgr.plan(s, r, now, election_timeout) {
        law_response_actions(
            seq![IoActionView::TruncateSuffix(point)] + mgr.fetch_actions(state),
            persist,
            r.entries,
        );
    }
}

/// A response that is rejected is an error, and touches neither log, watermark,
/// application nor proposals.
pub proof fn law_rejection_changes_no_log<S: StateMachine, L: Listener, SC: SnapshotCoordinator>(
    mgr: ReplicationManager,
    s: NodeStateView,
    r: FetchResponseView,
    now: u64,
    election_timeout: u64,
    s_after: NodeStateView,
    sm_before: S,
    sm_after: S,
    l_before: L,
    l_after: L,
    q_before: QueueView,
    q_after: QueueView,
    sc_before: SC,
    sc_after: SC,
    result: Result<FetchResponseResult, XraftError>,
)
    requires
        mgr.plan(s, r, now, election_timeout) is Reject || mgr.plan(
            s,
            r,
            now,
            election_timeout,
        ) is Transfer,
        mgr.handled(
            mgr.plan(s, r, now, election_timeout),
            r.entries,
            s_after,
            sm_before,
            sm_after,
            l_before,
            l_after,
            q_before,
            q_after,
            sc_before,
            sc_after,
            result,
        ),
    ensures
        keeps_log(s, s_after),
        sm_after == sm_before && l_after == l_before && q_after == q_before,
        result is Err <==> mgr.plan(s, r, now, election_timeout) is Reject,
        mgr.plan(s, r, now, election_timeout) is Reject ==> sc_after == sc_before,
        result matches Ok(res) ==> (res.snapshot_transfer_initiated ==> exists|
            batch: Seq<IoActionView>,
        |
            {
                &&& #[trigger] sc_before.begin_step(
                    r.leader_id,
                    r.snapshot_id->0,
                    s_after,
                    &sc_after,
                    batch,
                )
                &&& batch.is_prefix_of(res.io_batch@)
            }),
        result matches Ok(res) ==> (!res.snapshot_transfer_initiated ==> sc_after == sc_before
            && sc_before.in_progress_step(true)),
        result matches Ok(res) ==> (r.leader_epoch.0 > s.current_term.0 || s.leader_id is None
            ==> res.io_batch@.len() > 0 && (res.io_batch@.last() matches
            IoActionView::PersistQuorumState(q) && q.current_term == r.leader_epoch
            && q.leader_id == Some(r.leader_id))),
{
    law_response_outcome(mgr, s, r, now, election_timeout);
    law_response_accepted(s, r);
    if let FetchPlan::Transfer { state, leader_id, snapshot_id, persist } = mgr.plan(
        s,
        r,
        now,
        election_timeout,
    ) {
        if let Ok(res) = result {
            if res.snapshot_transfer_initiated {
                let batch = choose|batch: Seq<IoActionView>|
                    {
                        &&& #[trigger] sc_before.begin_step(
                            leader_id,
                            snapshot_id,
                            state,
                            &sc_after,
                            batch,
                        )
                        &&& crate::replication::succeeds_with(
                            result,
                            with_persist(batch, persist),
                            true,
                        )
                    };
                assert(batch.is_prefix_of(with_persist(batch, persist)));
            }
        }
    }
}

/// The default coordinator answers a begin with one request for the first chunk
/// of that snapshot, to that leader, and is in progress from then on.
pub proof fn law_default_transfer(
    before: DefaultSnapshotCoordinator,
    leader_id: NodeId,
    snapshot_id: SnapshotId,
    s: NodeStateView,
    after: DefaultSnapshotCoordinator,
    batch: Seq<IoActionView>,
)
    requires
        before.begin_step(leader_id, snapshot_id, s, &after, batch),
    ensures
        after.in_progress && after.in_progress_step(true) && !after.in_progress_step(false),
        batch.len() == 1,
        batch[0] matches IoActionView::SendRpc(to, m) && to == leader_id && m.source == s.node_id
            && m.payload == RpcPayloadView::FetchSnapshotRequest(
            FetchSnapshotRequest {
                snapshot_id,
                position: 0,
                max_bytes: before.max_fetch_bytes,
            },
        ),
{
}

/// Waiting as long as said ends at the deadline; one that has passed takes no
/// waiting.
pub proof fn law_wait_ends_at_deadline(deadline: u64, now: u64)
    ensures
        now <= deadline ==> now + wait_for(deadline, now) == deadline,
        now >= deadline ==> wait_for(deadline, now) == 0,
{
}

} // verus!
