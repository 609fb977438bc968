//! The protocol state of a node.
use std::collections::{BTreeMap, HashMap};

use vstd::prelude::*;

use crate::consensus_state::{ConsensusState, ConsensusStateView, Role};
use crate::follower_progress::FollowerProgress;
use crate::log_entry::{
    append_clones, contiguous, entry_views, lemma_entry_views_push, LogEntry, LogEntryView,
};
use crate::node_set::NodeSet;
use crate::types::{ClusterId, NodeId, Term};
use crate::voter::{
    clone_voters, contains_voter, has_voter, voter_views, VoterInfo, VoterView,
};

verus! {

broadcast use {
    vstd::std_specs::hash::group_hash_axioms,
    vstd::std_specs::btree::group_btree_axioms,
};

/// Tracks a pending (uncommitted) membership change.
#[derive(Debug, PartialEq, Eq)]
pub struct PendingMembershipChange {
    pub offset: u64,
    pub voters: Vec<VoterInfo>,
}

#[verifier::ext_equal]
pub struct PendingChangeView {
    pub offset: u64,
    pub voters: Seq<VoterView>,
}

impl View for PendingMembershipChange {
    type V = PendingChangeView;

    open spec fn view(&self) -> PendingChangeView {
        PendingChangeView { offset: self.offset, voters: voter_views(self.voters@) }
    }
}

/// Full internal protocol state. Points in time and intervals are in
/// milliseconds.
#[derive(Debug)]
pub struct NodeState {
    pub node_id: NodeId,
    pub cluster_id: ClusterId,
    pub current_term: Term,
    pub voted_for: Option<NodeId>,
    pub role: Role,
    pub leader_id: Option<NodeId>,
    /// The entries held in memory, in the order of their offsets.
    pub log: Vec<LogEntry>,
    pub log_start_offset: u64,
    pub log_end_offset: u64,
    /// Exclusive upper bound of committed offsets.
    pub high_watermark: u64,
    /// Term of the last log entry.
    pub last_log_term: Term,
    /// Voter set, from the latest committed voters record or snapshot.
    pub voter_set: Vec<VoterInfo>,
    pub observers: NodeSet,
    /// Pending membership change (leader-only).
    pub pending_membership_change: Option<PendingMembershipChange>,
    /// Leader-only: replication progress by node identifier.
    pub follower_state: HashMap<u64, FollowerProgress>,
    /// Start offset of each leader epoch, by term.
    pub leader_epoch_checkpoint: BTreeMap<u64, u64>,
    pub election_deadline: u64,
    pub fetch_deadline: u64,
    pub votes_received: NodeSet,
    pub pre_votes_received: NodeSet,
    pub check_quorum_deadline: u64,
    pub check_quorum_interval: u64,
}

#[verifier::ext_equal]
pub struct NodeStateView {
    pub node_id: NodeId,
    pub cluster_id: ClusterId,
    pub current_term: Term,
    pub voted_for: Option<NodeId>,
    pub role: Role,
    pub leader_id: Option<NodeId>,
    pub log: Seq<LogEntryView>,
    pub log_start_offset: u64,
    pub log_end_offset: u64,
    pub high_watermark: u64,
    pub last_log_term: Term,
    pub voter_set: Seq<VoterView>,
    pub observers: Set<u64>,
    pub pending_membership_change: Option<PendingChangeView>,
    pub follower_state: Map<u64, FollowerProgress>,
    pub leader_epoch_checkpoint: Map<u64, u64>,
    pub election_deadline: u64,
    pub fetch_deadline: u64,
    pub votes_received: Set<u64>,
    pub pre_votes_received: Set<u64>,
    pub check_quorum_deadline: u64,
    pub check_quorum_interval: u64,
}

impl View for NodeState {
    type V = NodeStateView;

    open spec fn view(&self) -> NodeStateView {
        NodeStateView {
            node_id: self.node_id,
            cluster_id: self.cluster_id,
            current_term: self.current_term,
            voted_for: self.voted_for,
            role: self.role,
            leader_id: self.leader_id,
            log: entry_views(self.log@),
            log_start_offset: self.log_start_offset,
            log_end_offset: self.log_end_offset,
            high_watermark: self.high_watermark,
            last_log_term: self.last_log_term,
            voter_set: voter_views(self.voter_set@),
            observers: self.observers@,
            pending_membership_change: match self.pending_membership_change {
                Some(p) => Some(p@),
                None => None,
            },
            follower_state: self.follower_state@,
            leader_epoch_checkpoint: self.leader_epoch_checkpoint@,
            election_deadline: self.election_deadline,
            fetch_deadline: self.fetch_deadline,
            votes_received: self.votes_received@,
            pre_votes_received: self.pre_votes_received@,
            check_quorum_deadline: self.check_quorum_deadline,
            check_quorum_interval: self.check_quorum_interval,
        }
    }
}

/// True of entries in strictly ascending order of their offsets.
pub open spec fn sorted_by_offset(log: Seq<LogEntryView>) -> bool {
    forall|i: int, j: int| 0 <= i < j < log.len() ==> log[i].offset < log[j].offset
}

/// The entries with offsets below `end`.
pub open spec fn entries_below(log: Seq<LogEntryView>, end: u64) -> Seq<LogEntryView> {
    log.filter(|e: LogEntryView| e.offset < end)
}

/// The entries with offsets from `start` to before `end`.
pub open spec fn entries_between(
    log: Seq<LogEntryView>,
    start: u64,
    end: u64,
) -> Seq<LogEntryView> {
    log.filter(|e: LogEntryView| start <= e.offset < end)
}

/// How many voters a majority of `count` voters takes.
pub open spec fn majority_of(count: nat) -> nat {
    count / 2 + 1
}

impl NodeStateView {
    /// The log is in order and ends before `log_end_offset`.
    pub open spec fn wf(self) -> bool {
        &&& sorted_by_offset(self.log)
        &&& forall|i: int|
            0 <= i < self.log.len() ==> (#[trigger] self.log[i]).offset < self.log_end_offset
    }

    /// The state of a fresh node.
    pub open spec fn unattached(node_id: NodeId, cluster_id: ClusterId, now: u64) -> Self {
        NodeStateView {
            node_id,
            cluster_id,
            current_term: Term(0),
            voted_for: None,
            role: Role::Unattached,
            leader_id: None,
            log: Seq::empty(),
            log_start_offset: 0,
            log_end_offset: 0,
            high_watermark: 0,
            last_log_term: Term(0),
            voter_set: Seq::empty(),
            observers: Set::empty(),
            pending_membership_change: None,
            follower_state: Map::empty(),
            leader_epoch_checkpoint: Map::empty(),
            election_deadline: now,
            fetch_deadline: now,
            votes_received: Set::empty(),
            pre_votes_received: Set::empty(),
            check_quorum_deadline: now,
            check_quorum_interval: 0,
        }
    }

    /// The public projection.
    pub open spec fn projection(self) -> ConsensusStateView {
        ConsensusStateView {
            node_id: self.node_id,
            current_term: self.current_term,
            role: self.role,
            leader_id: self.leader_id,
            log_end_offset: self.log_end_offset,
            high_watermark: self.high_watermark,
            voter_set: self.voter_set,
        }
    }

    pub open spec fn majority(self) -> nat {
        majority_of(self.voter_set.len())
    }

    pub open spec fn is_voter(self) -> bool {
        has_voter(self.voter_set, self.node_id)
    }

    /// A follower in `term`, with no vote given and no election under way.
    pub open spec fn as_follower(
        self,
        term: Term,
        leader_id: Option<NodeId>,
        deadline: u64,
    ) -> Self {
        NodeStateView {
            role: Role::Follower,
            current_term: term,
            voted_for: None,
            leader_id,
            votes_received: Set::empty(),
            pre_votes_received: Set::empty(),
            follower_state: Map::empty(),
            election_deadline: deadline,
            ..self
        }
    }

    /// A candidate in the next term that has voted for itself.
    pub open spec fn as_candidate(self, deadline: u64) -> Self {
        NodeStateView {
            role: Role::Candidate,
            current_term: Term((self.current_term.0 + 1) as u64),
            voted_for: Some(self.node_id),
            leader_id: None,
            votes_received: Set::empty().insert(self.node_id.0),
            pre_votes_received: Set::empty(),
            election_deadline: deadline,
            ..self
        }
    }

    /// The leader of the current term, with no follower heard of yet.
    pub open spec fn as_leader(self, now: u64, interval: u64) -> Self {
        NodeStateView {
            role: Role::Leader,
            leader_id: Some(self.node_id),
            follower_state: Map::empty(),
            check_quorum_interval: interval,
            check_quorum_deadline: (now + interval) as u64,
            ..self
        }
    }

    /// With a fetch of `source` on record.
    pub open spec fn with_fetch(self, source: NodeId, fetch_offset: u64, now: u64) -> Self {
        NodeStateView {
            follower_state: self.follower_state.insert(
                source.0,
                FollowerProgress {
                    node_id: source,
                    fetch_offset,
                    last_fetch_timestamp: now,
                    is_voter: has_voter(self.voter_set, source),
                },
            ),
            ..self
        }
    }

    /// True if `voter` is this node, or fetched at most `interval` before
    /// `now`.
    pub open spec fn voter_active(self, voter: VoterView, now: u64, interval: u64) -> bool {
        ||| voter.node_id == self.node_id
        ||| {
            &&& self.follower_state.contains_key(voter.node_id.0)
            &&& now <= self.follower_state[voter.node_id.0].last_fetch_timestamp + interval
        }
    }

    /// A majority of the voters is active.
    pub open spec fn quorum_active(self, now: u64, interval: u64) -> bool {
        self.voter_set.filter(|v: VoterView| self.voter_active(v, now, interval)).len()
            >= self.majority()
    }

    /// With `entries` appended.
    pub open spec fn with_entries(self, entries: Seq<LogEntryView>) -> Self {
        if entries.len() == 0 {
            self
        } else {
            NodeStateView {
                log: self.log + entries,
                log_end_offset: (entries.last().offset + 1) as u64,
                last_log_term: entries.last().term,
                ..self
            }
        }
    }

    /// Without the entries at `point` and after. The term of the last entry
    /// is that of the last one left, or 0 where none is left.
    pub open spec fn truncated(self, point: u64) -> Self {
        let log = entries_below(self.log, point);
        NodeStateView {
            log,
            log_end_offset: point,
            last_log_term: if log.len() == self.log.len() {
                self.last_log_term
            } else if log.len() > 0 {
                log.last().term
            } else {
                Term(0)
            },
            ..self
        }
    }
}

impl NodeState {
    /// Create initial Unattached state for a fresh node.
    pub fn new_unattached(node_id: NodeId, now: u64) -> (r: Self)
        ensures
            r@ == NodeStateView::unattached(node_id, ClusterId(0), now),
    {
        let r = NodeState {
            node_id,
            cluster_id: ClusterId::default(),
            current_term: Term(0),
            voted_for: None,
            role: Role::Unattached,
            leader_id: None,
            log: Vec::new(),
            log_start_offset: 0,
            log_end_offset: 0,
            high_watermark: 0,
            last_log_term: Term(0),
            voter_set: Vec::new(),
            observers: NodeSet::new(),
            pending_membership_change: None,
            follower_state: HashMap::new(),
            leader_epoch_checkpoint: BTreeMap::new(),
            election_deadline: now,
            fetch_deadline: now,
            votes_received: NodeSet::new(),
            pre_votes_received: NodeSet::new(),
            check_quorum_deadline: now,
            check_quorum_interval: 0,
        };
        assert(r@ =~= NodeStateView::unattached(node_id, ClusterId(0), now));
        r
    }

    /// An unattached node of a known cluster, with all deadlines at 0.
    pub fn new(node_id: NodeId, cluster_id: ClusterId) -> (r: Self)
        ensures
            r@ == NodeStateView::unattached(node_id, cluster_id, 0),
    {
        let mut r = Self::new_unattached(node_id, 0);
        r.cluster_id = cluster_id;
        r
    }

    /// Project internal state into the public `ConsensusState`.
    pub fn project(&self) -> (r: ConsensusState)
        ensures
            r@ == self@.projection(),
    {
        ConsensusState {
            node_id: self.node_id,
            current_term: self.current_term,
            role: self.role,
            leader_id: self.leader_id,
            log_end_offset: self.log_end_offset,
            high_watermark: self.high_watermark,
            voter_set: clone_voters(&self.voter_set),
        }
    }

    /// How many voters the cluster has.
    pub fn voter_count(&self) -> (n: usize)
        ensures
            n == self@.voter_set.len(),
    {
        self.voter_set.len()
    }

    /// How many votes win an election.
    pub fn majority(&self) -> (n: usize)
        ensures
            n == self@.majority(),
            2 * n > self@.voter_set.len(),
            2 * (n - 1) <= self@.voter_set.len(),
    {
        self.voter_set.len() / 2 + 1
    }

    /// Whether this node is a voter.
    pub fn is_voter(&self) -> (b: bool)
        ensures
            b == self@.is_voter(),
    {
        contains_voter(&self.voter_set, self.node_id)
    }

    /// Whether a node is a voter.
    pub fn is_in_voter_set(&self, id: NodeId) -> (b: bool)
        ensures
            b == has_voter(self@.voter_set, id),
    {
        contains_voter(&self.voter_set, id)
    }

    /// Term of the last log entry.
    pub fn last_log_term(&self) -> (t: Term)
        ensures
            t == self@.last_log_term,
    {
        self.last_log_term
    }

    pub fn update_last_log_term(&mut self, term: Term)
        ensures
            final(self)@ == (NodeStateView { last_log_term: term, ..old(self)@ }),
    {
        self.last_log_term = term;
    }

    /// Become a follower in `term`: forget votes, election and followers.
    pub fn become_follower(&mut self, term: Term, leader_id: Option<NodeId>, deadline: u64)
        ensures
            final(self)@ == old(self)@.as_follower(term, leader_id, deadline),
    {
        self.role = Role::Follower;
        self.current_term = term;
        self.voted_for = None;
        self.leader_id = leader_id;
        self.votes_received.clear();
        self.pre_votes_received.clear();
        self.follower_state.clear();
        self.election_deadline = deadline;
        assert(self@ =~= old(self)@.as_follower(term, leader_id, deadline));
    }

    /// Start the next term as a candidate with this node's own vote.
    pub fn become_candidate(&mut self, deadline: u64)
        requires
            old(self)@.current_term.0 < u64::MAX,
        ensures
            final(self)@ == old(self)@.as_candidate(deadline),
    {
        self.role = Role::Candidate;
        self.current_term = Term(self.current_term.0 + 1);
        self.voted_for = Some(self.node_id);
        self.leader_id = None;
        self.votes_received.clear();
        self.votes_received.insert(self.node_id);
        self.pre_votes_received.clear();
        self.election_deadline = deadline;
        assert(self@ =~= old(self)@.as_candidate(deadline));
    }

    /// Become the leader of the current term; the quorum is checked every
    /// `interval` from `now`.
    pub fn become_leader(&mut self, now: u64, interval: u64)
        requires
            now + interval <= u64::MAX,
        ensures
            final(self)@ == old(self)@.as_leader(now, interval),
    {
        self.role = Role::Leader;
        self.leader_id = Some(self.node_id);
        self.follower_state.clear();
        self.check_quorum_interval = interval;
        self.check_quorum_deadline = now + interval;
        assert(self@ =~= old(self)@.as_leader(now, interval));
    }

    /// Record a fetch of `source`.
    pub fn record_fetch(&mut self, source: NodeId, fetch_offset: u64, now: u64)
        ensures
            final(self)@ == old(self)@.with_fetch(source, fetch_offset, now),
    {
        let is_voter = self.is_in_voter_set(source);
        self.follower_state.insert(
            source.0,
            FollowerProgress { node_id: source, fetch_offset, last_fetch_timestamp: now, is_voter },
        );
        assert(self@ =~= old(self)@.with_fetch(source, fetch_offset, now));
    }

    /// Whether a majority of the voters, this node counted, fetched at most
    /// `interval` before `now`.
    pub fn check_quorum(&self, now: u64, interval: u64) -> (b: bool)
        ensures
            b == self@.quorum_active(now, interval),
            b <==> 2 * self@.voter_set.filter(
                |v: VoterView|
                    {
                        ||| v.node_id == self.node_id
                        ||| self@.follower_state.contains_key(v.node_id.0) && now
                            - self@.follower_state[v.node_id.0].last_fetch_timestamp <= interval
                    },
            ).len() > self@.voter_set.len(),
    {
        proof {
            crate::node_state_laws::law_quorum_check(self@, now, interval);
        }
        let ghost active = |v: VoterView| self@.voter_active(v, now, interval);
        let ghost voters = self@.voter_set;
        let mut count: usize = 0;
        let mut i: usize = 0;
        proof {
            reveal(Seq::filter);
            assert(voters.take(0) =~= Seq::<VoterView>::empty());
        }
        while i < self.voter_set.len()
            invariant
                i <= self.voter_set@.len(),
                voters == self@.voter_set,
                voters.len() == self.voter_set@.len(),
                active == (|v: VoterView| self@.voter_active(v, now, interval)),
                count == voters.take(i as int).filter(active).len(),
                count <= i,
            decreases self.voter_set@.len() - i,
        {
            let id = self.voter_set[i].node_id;
            let is_active = if id == self.node_id {
                true
            } else {
                match self.follower_state.get(&id.0) {
                    Some(p) => now <= p.last_fetch_timestamp || now - p.last_fetch_timestamp
                        <= interval,
                    None => false,
                }
            };
            proof {
                reveal(Seq::filter);
                assert(voters[i as int] == self.voter_set@[i as int]@);
                assert(voters.take(i + 1).drop_last() =~= voters.take(i as int));
                assert(is_active == active(voters[i as int]));
            }
            if is_active {
                count = count + 1;
            }
            i = i + 1;
        }
        assert(voters.take(i as int) =~= voters);
        count >= self.majority()
    }

    /// Append entries that continue the log.
    pub fn append_entries(&mut self, entries: &Vec<LogEntry>)
        requires
            old(self)@.wf(),
            entries@.len() > 0 ==> entries@[0].offset == old(self).log_end_offset,
            entries@.len() > 0 ==> entries@.last().offset < u64::MAX,
            contiguous(entry_views(entries@)),
        ensures
            final(self)@ == old(self)@.with_entries(entry_views(entries@)),
            final(self)@.wf(),
    {
        let ghost added = entry_views(entries@);
        if entries.len() > 0 {
            append_clones(&mut self.log, entries);
            let last = &entries[entries.len() - 1];
            proof {
                assert(added.last() == last@);
            }
            self.log_end_offset = last.offset + 1;
            self.last_log_term = last.term;
            proof {
                let old_log = old(self)@.log;
                let log = old_log + added;
                assert forall|i: int, j: int| 0 <= i < j < log.len() implies log[i].offset
                    < log[j].offset by {
                    if i >= old_log.len() {
                        assert(added[i - old_log.len()].offset == added[0].offset + (i
                            - old_log.len()));
                    }
                    if j >= old_log.len() {
                        assert(added[j - old_log.len()].offset == added[0].offset + (j
                            - old_log.len()));
                    }
                }
                assert forall|i: int| 0 <= i < log.len() implies (#[trigger] log[i]).offset
                    < self.log_end_offset by {
                    assert(added[added.len() - 1].offset == added[0].offset + (added.len() - 1));
                    if i >= old_log.len() {
                        assert(added[i - old_log.len()].offset == added[0].offset + (i
                            - old_log.len()));
                    }
                }
            }
        }
        assert(self@ =~= old(self)@.with_entries(added));
    }

    /// Remove the entries at `point` and after.
    pub fn truncate_suffix(&mut self, point: u64)
        requires
            old(self)@.wf(),
            point <= old(self).log_end_offset,
        ensures
            final(self)@ == old(self)@.truncated(point),
            final(self)@.wf(),
    {
        let ghost old_log = self@.log;
        let ghost keep = |e: LogEntryView| e.offset < point;
        let len: usize = self.log.len();
        while self.log.len() > 0 && self.log[self.log.len() - 1].offset >= point
            invariant
                old_log == old(self)@.log,
                keep == (|e: LogEntryView| e.offset < point),
                entry_views(self.log@).filter(keep) == old_log.filter(keep),
                self.log@.len() <= old_log.len(),
                entry_views(self.log@) == old_log.take(self.log@.len() as int),
                self@ == (NodeStateView { log: entry_views(self.log@), ..old(self)@ }),
            decreases self.log@.len(),
        {
            let ghost before = entry_views(self.log@);
            self.log.pop();
            proof {
                reveal(Seq::filter);
                assert(entry_views(self.log@) =~= before.drop_last());
                assert(before.last() == before[before.len() - 1]);
                assert(before.drop_last() =~= old_log.take(self.log@.len() as int));
                assert(self@ =~= (NodeStateView { log: entry_views(self.log@), ..old(self)@ }));
            }
        }
        proof {
            let log = entry_views(self.log@);
            assert forall|i: int| 0 <= i < log.len() implies keep(#[trigger] log[i]) by {
                assert(log[i] == old_log[i]);
                assert(log.last() == old_log[log.len() - 1]);
                assert(self.log@.last()@ == log.last());
            }
            lemma_filter_all(log, keep);
        }
        if self.log.len() < len {
            self.last_log_term = if self.log.len() > 0 {
                let ghost log = entry_views(self.log@);
                assert(log.last() == self.log@.last()@);
                self.log[self.log.len() - 1].term
            } else {
                Term(0)
            };
        }
        self.log_end_offset = point;
        assert(self@ =~= old(self)@.truncated(point));
    }

    /// Copies of the entries with offsets from `start` to before `end`.
    pub fn entries_in_range(&self, start: u64, end: u64) -> (r: Vec<LogEntry>)
        ensures
            entry_views(r@) == entries_between(self@.log, start, end),
    {
        let ghost wanted = |e: LogEntryView| start <= e.offset < end;
        let ghost log = self@.log;
        let mut r: Vec<LogEntry> = Vec::new();
        let mut i: usize = 0;
        proof {
            reveal(Seq::filter);
            assert(log.take(0) =~= Seq::<LogEntryView>::empty());
            assert(entry_views(r@) =~= Seq::<LogEntryView>::empty());
        }
        while i < self.log.len()
            invariant
                i <= self.log@.len(),
                log == self@.log,
                wanted == (|e: LogEntryView| start <= e.offset < end),
                entry_views(r@) == log.take(i as int).filter(wanted),
            decreases self.log@.len() - i,
        {
            let e = &self.log[i];
            let ghost prev = r@;
            proof {
                reveal(Seq::filter);
                assert(log[i as int] == e@);
                assert(log.take(i + 1).drop_last() =~= log.take(i as int));
            }
            if start <= e.offset && e.offset < end {
                r.push(e.clone());
                proof {
                    lemma_entry_views_push(prev, r@.last());
                }
            }
            i = i + 1;
        }
        assert(log.take(i as int) =~= log);
        r
    }
}

/// Filtering by a test that every element passes changes nothing.
pub proof fn lemma_filter_all<A>(s: Seq<A>, f: spec_fn(A) -> bool)
    requires
        forall|i: int| 0 <= i < s.len() ==> f(#[trigger] s[i]),
    ensures
        s.filter(f) == s,
    decreases s.len(),
{
    reveal(Seq::filter);
    if s.len() > 0 {
        assert forall|i: int| 0 <= i < s.drop_last().len() implies f(#[trigger] s.drop_last()[i]) by {
            assert(s.drop_last()[i] == s[i]);
        }
        lemma_filter_all(s.drop_last(), f);
        assert(s.drop_last().push(s.last()) =~= s);
    }
}

} // verus!
