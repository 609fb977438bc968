//! A consensus node, as a series of decisions between I/O.
//!
//! Where a decision needs something saved, sent or read first, the function
//! that decides returns what is to be done, and the next function takes what
//! came of it.
use vstd::prelude::*;

use crate::config::RaftConfig;
use crate::consensus_state::{ConsensusState, Role};
use crate::error::{XraftError, XraftErrorView};
use crate::listener::Listener;
use crate::log_entry::{entry_views, EntryType, LogEntry, LogEntryView};
use crate::node_set::NodeSet;
use crate::node_state::{majority_of, NodeState, NodeStateView};
use crate::quorum_state::QuorumState;
use crate::rpc::{
    RpcEnvelope, RpcEnvelopeView, RpcPayload, RpcPayloadView, VoteRequest, VoteResponse,
};
use crate::snapshot::{Snapshot, SnapshotView};
use crate::traits::{outcome, StateMachine};
use crate::types::{ClusterId, NodeId, Offset, Term};
use crate::voter::{
    clone_voters, contains_voter, has_voter, voter_views, VoterInfo, VoterView, VotersRecord,
    VotersRecordView,
};

verus! {

/// What the stores of a node hold when it starts.
pub struct StoredData {
    pub log_start_offset: u64,
    pub log_end_offset: u64,
    pub quorum_state: Option<QuorumState>,
    pub snapshot: Option<Snapshot>,
    /// The entries of the log. Only looked at where there is a quorum state
    /// but no snapshot.
    pub entries: Vec<LogEntry>,
}

#[verifier::ext_equal]
pub struct StoredDataView {
    pub log_start_offset: u64,
    pub log_end_offset: u64,
    pub quorum_state: Option<QuorumState>,
    pub snapshot: Option<SnapshotView>,
    pub entries: Seq<LogEntryView>,
}

impl View for StoredData {
    type V = StoredDataView;

    open spec fn view(&self) -> StoredDataView {
        StoredDataView {
            log_start_offset: self.log_start_offset,
            log_end_offset: self.log_end_offset,
            quorum_state: self.quorum_state,
            snapshot: match self.snapshot {
                Some(s) => Some(s@),
                None => None,
            },
            entries: entry_views(self.entries@),
        }
    }
}

/// The voters of the last voters record among `entries` that decodes.
pub open spec fn latest_voters(entries: Seq<LogEntryView>) -> Option<Seq<VoterView>>
    decreases entries.len(),
{
    if entries.len() == 0 {
        None
    } else if entries.last().entry_type == EntryType::VotersRecord && VotersRecordView::decoding(
        entries.last().payload,
    ) is Some {
        Some(VotersRecordView::decoding(entries.last().payload)->0.voters)
    } else {
        latest_voters(entries.drop_last())
    }
}

/// The larger of two offsets.
pub open spec fn max_offset(a: u64, b: u64) -> u64 {
    if a >= b {
        a
    } else {
        b
    }
}

/// The state with term, vote, leader and cluster from the quorum state, where
/// there is one.
pub open spec fn with_quorum_state(s: NodeStateView, qs: Option<QuorumState>) -> NodeStateView {
    match qs {
        Some(q) => NodeStateView {
            current_term: q.current_term,
            voted_for: q.voted_for,
            leader_id: q.leader_id,
            cluster_id: q.cluster_id,
            ..s
        },
        None => s,
    }
}

/// The state with voters and log boundaries from the snapshot, where there is
/// one.
pub open spec fn with_snapshot(s: NodeStateView, snapshot: Option<SnapshotView>) -> NodeStateView {
    match snapshot {
        Some(snap) => NodeStateView {
            voter_set: snap.metadata.voters,
            log_start_offset: (snap.metadata.last_included_offset + 1) as u64,
            high_watermark: (snap.metadata.last_included_offset + 1) as u64,
            ..s
        },
        None => s,
    }
}

/// The state that recovery ends with: what the stores say, as a follower.
pub open spec fn recovered(s: NodeStateView, d: StoredDataView, deadline: u64) -> NodeStateView {
    let r = with_snapshot(with_quorum_state(s, d.quorum_state), d.snapshot);
    let snapshot_end: u64 = match d.snapshot {
        Some(snap) => (snap.metadata.last_included_offset + 1) as u64,
        None => 0,
    };
    let scan = d.snapshot is None && d.quorum_state is Some && d.log_end_offset
        > d.log_start_offset;
    NodeStateView {
        log_start_offset: max_offset(r.log_start_offset, d.log_start_offset),
        log_end_offset: max_offset(d.log_end_offset, snapshot_end),
        voter_set: if scan && latest_voters(d.entries) is Some {
            latest_voters(d.entries)->0
        } else {
            r.voter_set
        },
        role: Role::Follower,
        election_deadline: deadline,
        ..r
    }
}

/// The first voter of the list whose identifier occurred before it.
pub open spec fn first_duplicate(voters: Seq<VoterView>) -> Option<NodeId>
    decreases voters.len(),
{
    if voters.len() == 0 {
        None
    } else {
        match first_duplicate(voters.drop_last()) {
            Some(id) => Some(id),
            None => if has_voter(voters.drop_last(), voters.last().node_id) {
                Some(voters.last().node_id)
            } else {
                None
            },
        }
    }
}

/// What is wrong with the arguments of bootstrap.
pub open spec fn bootstrap_error(
    node_id: NodeId,
    cluster_id: ClusterId,
    voters: Seq<VoterView>,
) -> Option<Seq<char>> {
    if cluster_id.0 == 0 {
        Some("cluster_id must not be nil"@)
    } else if voters.len() == 0 {
        Some("initial_voters must not be empty"@)
    } else if first_duplicate(voters) is Some {
        Some(
            "duplicate node_id "@ + first_duplicate(voters)->0.spec_text()
                + " in initial_voters"@,
        )
    } else if !has_voter(voters, node_id) {
        Some(
            "this node ("@ + node_id.spec_text() + ") must be included in initial_voters"@,
        )
    } else {
        None
    }
}

/// Why a node cannot be bootstrapped.
pub open spec fn bootstrap_refused(bootstrapped: bool, role: Role) -> Option<Seq<char>> {
    if bootstrapped {
        Some("node has already been bootstrapped or recovered"@)
    } else if role != Role::Unattached {
        Some("node is not in Unattached state"@)
    } else {
        None
    }
}

/// The quorum state that records the node's term and a vote.
pub open spec fn vote_record(s: NodeStateView, voted_for: Option<NodeId>) -> QuorumState {
    QuorumState {
        current_term: s.current_term,
        voted_for,
        leader_id: None,
        leader_epoch: Term(0),
        cluster_id: s.cluster_id,
    }
}

/// A follower of a term that it learnt from a message.
pub open spec fn in_higher_term(s: NodeStateView, term: Term, deadline: u64) -> NodeStateView {
    NodeStateView {
        current_term: term,
        voted_for: None,
        role: Role::Follower,
        leader_id: None,
        votes_received: Set::empty(),
        election_deadline: deadline,
        ..s
    }
}

/// A candidate of the next term with its own vote.
pub open spec fn standing(s: NodeStateView) -> NodeStateView {
    NodeStateView {
        current_term: Term((s.current_term.0 + 1) as u64),
        voted_for: Some(s.node_id),
        role: Role::Candidate,
        leader_id: None,
        votes_received: Set::empty().insert(s.node_id.0),
        ..s
    }
}

/// The votes make up a majority of a voter set that is not empty.
pub open spec fn quorum_reached(s: NodeStateView) -> bool {
    s.voter_set.len() > 0 && s.votes_received.len() >= majority_of(s.voter_set.len())
}

/// The answer to a vote request.
pub open spec fn answer(s: NodeStateView, req: VoteRequest, vote_granted: bool) -> VoteResponse {
    VoteResponse { term: s.current_term, vote_granted, is_pre_vote: req.is_pre_vote }
}

/// True if the node gives its vote, with the last entry of its log at
/// `last_offset` and of `last_term`.
pub open spec fn grants(
    s: NodeStateView,
    req: VoteRequest,
    last_offset: u64,
    last_term: Term,
) -> bool {
    &&& req.term.0 >= s.current_term.0
    &&& s.voted_for is None || s.voted_for == Some(req.candidate_id)
    &&& req.last_log_term.0 > last_term.0 || (req.last_log_term == last_term
        && req.last_log_offset.0 >= last_offset)
}

/// A message of this node that belongs to no leader's epoch.
pub open spec fn message_of(s: NodeStateView, payload: RpcPayloadView) -> RpcEnvelopeView {
    RpcEnvelopeView {
        cluster_id: s.cluster_id,
        leader_epoch: Term(0),
        source: s.node_id,
        payload,
    }
}

/// The voters of the list other than `id`.
pub open spec fn other_voters(voters: Seq<VoterView>, id: NodeId) -> Seq<NodeId> {
    voters.filter(|v: VoterView| v.node_id != id).map_values(|v: VoterView| v.node_id)
}

/// How a vote request goes on.
#[derive(Debug, Clone, Copy, PartialEq, Eq, Structural)]
pub enum VoteRequestStep {
    /// Send the answer; the request is dealt with.
    Reply(VoteResponse),
    /// Save the state, then decide.
    Persist(QuorumState),
    /// Decide.
    Decide,
}

/// The decision on a vote request: what to save before the answer is sent.
#[derive(Debug, Clone, Copy, PartialEq, Eq, Structural)]
pub struct VoteDecision {
    pub response: VoteResponse,
    pub persist: Option<QuorumState>,
}

/// How a vote response goes on.
#[derive(Debug, Clone, Copy, PartialEq, Eq, Structural)]
pub enum VoteResponseStep {
    /// Save the state; the response is dealt with.
    Persist(QuorumState),
    /// Nothing to do.
    Done,
    /// The election is won.
    Won,
}

/// What the first part of a vote request does to the node, and how it goes
/// on.
pub open spec fn requested(
    s: NodeStateView,
    request: VoteRequest,
    deadline: u64,
) -> (NodeStateView, VoteRequestStep) {
    if !has_voter(s.voter_set, request.candidate_id) {
        (s, VoteRequestStep::Reply(answer(s, request, false)))
    } else if request.term.0 > s.current_term.0 {
        let t = in_higher_term(s, request.term, deadline);
        (t, VoteRequestStep::Persist(vote_record(t, None)))
    } else {
        (s, VoteRequestStep::Decide)
    }
}

/// What a vote response does to the node, and how it goes on.
pub open spec fn responded(
    s: NodeStateView,
    from: NodeId,
    response: VoteResponse,
    deadline: u64,
) -> (NodeStateView, VoteResponseStep) {
    if response.term.0 > s.current_term.0 {
        let t = in_higher_term(s, response.term, deadline);
        (t, VoteResponseStep::Persist(vote_record(t, None)))
    } else if s.role != Role::Candidate || response.term != s.current_term
        || response.is_pre_vote || !has_voter(s.voter_set, from) || !response.vote_granted {
        (s, VoteResponseStep::Done)
    } else {
        let v = NodeStateView { votes_received: s.votes_received.insert(from.0), ..s };
        (
            v,
            if quorum_reached(v) {
                VoteResponseStep::Won
            } else {
                VoteResponseStep::Done
            },
        )
    }
}

/// The state after the second part of a vote request.
pub open spec fn decided(
    s: NodeStateView,
    request: VoteRequest,
    last_offset: u64,
    last_term: Term,
) -> NodeStateView {
    if grants(s, request, last_offset, last_term) && !request.is_pre_vote {
        NodeStateView { voted_for: Some(request.candidate_id), ..s }
    } else {
        s
    }
}

/// The second part of a vote request took a node from one state to another,
/// with this decision.
pub open spec fn vote_decided(
    before: NodeStateView,
    request: VoteRequest,
    last_offset: u64,
    last_term: Term,
    after: NodeStateView,
    d: VoteDecision,
) -> bool {
    &&& d.response == answer(before, request, grants(before, request, last_offset, last_term))
    &&& after == decided(before, request, last_offset, last_term)
    &&& d.persist == (if grants(before, request, last_offset, last_term) && !request.is_pre_vote {
        Some(vote_record(after, after.voted_for))
    } else {
        None
    })
}

/// The request with which a candidate asks for votes.
pub open spec fn request_of(s: NodeStateView, last_offset: u64, last_term: Term) -> VoteRequest {
    VoteRequest {
        term: s.current_term,
        candidate_id: s.node_id,
        last_log_offset: Offset(last_offset),
        last_log_term: last_term,
        is_pre_vote: false,
    }
}

/// The state of a node after first-time cluster formation.
pub open spec fn founded(
    s: NodeStateView,
    cluster_id: ClusterId,
    voters: Seq<VoterView>,
    deadline: u64,
) -> NodeStateView {
    NodeStateView {
        cluster_id,
        voter_set: voters,
        current_term: Term(0),
        voted_for: None,
        leader_id: None,
        role: Role::Follower,
        votes_received: Set::empty(),
        pre_votes_received: Set::empty(),
        election_deadline: deadline,
        ..s
    }
}

/// The state of a new leader whose log ends at `log_end`. A sole voter has
/// everything committed.
pub open spec fn leading(s: NodeStateView, log_end: u64) -> NodeStateView {
    NodeStateView {
        role: Role::Leader,
        leader_id: Some(s.node_id),
        log_end_offset: log_end,
        high_watermark: if s.voter_set.len() == 1 {
            log_end
        } else {
            s.high_watermark
        },
        ..s
    }
}

/// The entries with which a leader continues a log that ends at `log_end`.
pub open spec fn opens_with(
    s: NodeStateView,
    log_end: u64,
    log_has_voters: bool,
    first: LogEntryView,
    second: Option<LogEntryView>,
) -> bool {
    &&& first == (LogEntryView {
        offset: log_end,
        term: s.current_term,
        entry_type: EntryType::LeaderChangeMessage,
        payload: Seq::empty(),
    })
    &&& second is Some <==> !log_has_voters
    &&& second matches Some(e) ==> {
        let record = VotersRecordView { version: 1, voters: s.voter_set };
        &&& e == (LogEntryView {
            offset: (log_end + 1) as u64,
            term: s.current_term,
            entry_type: EntryType::VotersRecord,
            payload: record.encoding(),
        })
        &&& VotersRecordView::decoding(e.payload) == Some(record)
    }
}

/// When the election timer runs out, in a role that has one.
pub open spec fn timer_of(s: NodeStateView) -> Option<u64> {
    if s.role == Role::Follower || s.role == Role::Candidate {
        Some(s.election_deadline)
    } else {
        None
    }
}

/// Offset and term of the last entry of a log that ends at `log_end`.
pub open spec fn last_entry(log_end: u64, term: Option<Term>) -> (u64, Term) {
    if log_end == 0 {
        (0u64, Term(0))
    } else {
        (
            (log_end - 1) as u64,
            match term {
                Some(t) => t,
                None => Term(0),
            },
        )
    }
}

/// Data is present in the stores.
pub open spec fn data_present(
    log_start_offset: u64,
    log_end_offset: u64,
    has_quorum_state: bool,
    has_snapshot: bool,
) -> bool {
    log_start_offset != 0 || log_end_offset != 0 || has_quorum_state || has_snapshot
}

/// How an inbound message goes on.
#[derive(Debug, Clone, Copy, PartialEq, Eq, Structural)]
pub enum RpcStep {
    VoteRequest(VoteRequest, VoteRequestStep),
    VoteResponse(VoteResponseStep),
    Ignored,
}

/// What a message that is not fenced off does to the node, and how it goes on.
pub open spec fn dispatched(
    s: NodeStateView,
    m: RpcEnvelopeView,
    deadline: u64,
) -> (NodeStateView, RpcStep) {
    match m.payload {
        RpcPayloadView::VoteRequest(req) => (
            requested(s, req, deadline).0,
            RpcStep::VoteRequest(req, requested(s, req, deadline).1),
        ),
        RpcPayloadView::VoteResponse(resp) => (
            responded(s, m.source, resp, deadline).0,
            RpcStep::VoteResponse(responded(s, m.source, resp, deadline).1),
        ),
        _ => (s, RpcStep::Ignored),
    }
}

/// A Raft consensus node.
pub struct RaftNode<S: StateMachine, L: Listener> {
    pub state: NodeState,
    pub config: RaftConfig,
    pub state_machine: S,
    pub listener: L,
    pub bootstrapped: bool,
}

/// Whether any data is present in the stores.
pub fn has_existing_data(
    log_start_offset: u64,
    log_end_offset: u64,
    has_quorum_state: bool,
    has_snapshot: bool,
) -> (b: bool)
    ensures
        b == data_present(log_start_offset, log_end_offset, has_quorum_state, has_snapshot),
{
    log_start_offset != 0 || log_end_offset != 0 || has_quorum_state || has_snapshot
}

/// The offset and term of the last entry of a log that ends at `log_end`;
/// `term` is that of its last entry, where it could be read.
pub fn last_log_info(log_end: u64, term: Option<Term>) -> (r: (u64, Term))
    ensures
        r == last_entry(log_end, term),
{
    if log_end == 0 {
        return (0, Term::zero());
    }
    match term {
        Some(t) => (log_end - 1, t),
        None => (log_end - 1, Term::zero()),
    }
}

/// Whether one of the entries is a voters record.
pub fn has_voters_record(entries: &Vec<LogEntry>) -> (b: bool)
    ensures
        b == (exists|i: int|
            0 <= i < entries@.len() && (#[trigger] entries@[i]).entry_type
                == EntryType::VotersRecord),
{
    let mut i: usize = 0;
    while i < entries.len()
        invariant
            i <= entries@.len(),
            forall|k: int|
                0 <= k < i ==> (#[trigger] entries@[k]).entry_type != EntryType::VotersRecord,
        decreases entries@.len() - i,
    {
        if entries[i].entry_type == EntryType::VotersRecord {
            return true;
        }
        i = i + 1;
    }
    false
}

/// The voters of the last voters record that decodes.
pub fn find_latest_voters(entries: &Vec<LogEntry>) -> (r: Option<Vec<VoterInfo>>)
    ensures
        match r {
            Some(v) => latest_voters(entry_views(entries@)) == Some(voter_views(v@)),
            None => latest_voters(entry_views(entries@)) is None,
        },
{
    let ghost all = entry_views(entries@);
    let mut i: usize = entries.len();
    assert(all.take(i as int) =~= all);
    while i > 0
        invariant
            i <= entries@.len(),
            all == entry_views(entries@),
            latest_voters(all) == latest_voters(all.take(i as int)),
        decreases i,
    {
        let entry = &entries[i - 1];
        proof {
            assert(all.take(i as int).last() == entry@);
            assert(all.take(i as int).drop_last() =~= all.take(i - 1));
        }
        if entry.entry_type == EntryType::VotersRecord {
            if let Ok(record) = entry.decode_voters() {
                return Some(record.voters);
            }
        }
        i = i - 1;
    }
    None
}

/// Validates bootstrap arguments: a cluster that is not nil, and a list of
/// voters, each once, with this node among them.
pub fn validate_bootstrap_config(
    node_id: NodeId,
    cluster_id: &ClusterId,
    initial_voters: &Vec<VoterInfo>,
) -> (r: Result<(), XraftError>)
    ensures
        match r {
            Ok(_) => bootstrap_error(node_id, *cluster_id, voter_views(initial_voters@)) is None,
            Err(e) => {
                &&& bootstrap_error(node_id, *cluster_id, voter_views(initial_voters@)) is Some
                &&& e@ == XraftErrorView::InvalidBootstrapConfig(
                    bootstrap_error(node_id, *cluster_id, voter_views(initial_voters@))->0,
                )
            },
        },
{
    if cluster_id.is_nil() {
        return Err(
            XraftError::InvalidBootstrapConfig {
                reason: String::from_str("cluster_id must not be nil"),
            },
        );
    }
    if initial_voters.len() == 0 {
        return Err(
            XraftError::InvalidBootstrapConfig {
                reason: String::from_str("initial_voters must not be empty"),
            },
        );
    }
    let ghost all = voter_views(initial_voters@);
    let mut seen = NodeSet::new();
    let mut i: usize = 0;
    assert(all.take(0) =~= Seq::<VoterView>::empty());
    while i < initial_voters.len()
        invariant
            i <= initial_voters@.len(),
            cluster_id.0 != 0,
            initial_voters@.len() > 0,
            all == voter_views(initial_voters@),
            first_duplicate(all.take(i as int)) is None,
            forall|id: u64| #[trigger]
                seen@.contains(id) <==> has_voter(all.take(i as int), NodeId(id)),
        decreases initial_voters@.len() - i,
    {
        let id = initial_voters[i].node_id;
        let ghost taken = all.take(i as int);
        let ghost next = all.take(i + 1);
        proof {
            assert(all[i as int] == initial_voters@[i as int]@);
            assert(next.drop_last() =~= taken);
            assert(next.last() == all[i as int]);
            assert(seen@.contains(id.0) <==> has_voter(taken, id));
        }
        if !seen.insert(id) {
            proof {
                assert(first_duplicate(next) == Some(id));
                lemma_duplicate_stays(all, i + 1, all.len() as int);
                assert(all.take(all.len() as int) =~= all);
            }
            let mut m = String::from_str("duplicate node_id ");
            let text = id.text();
            m.append(text.as_str());
            m.append(" in initial_voters");
            return Err(XraftError::InvalidBootstrapConfig { reason: m });
        }
        proof {
            assert forall|x: u64| #[trigger] seen@.contains(x) <==> has_voter(next, NodeId(x)) by {
                if has_voter(taken, NodeId(x)) {
                    let k = choose|k: int|
                        0 <= k < taken.len() && #[trigger] taken[k].node_id == NodeId(x);
                    assert(next[k].node_id == NodeId(x));
                }
                if x == id.0 {
                    assert(next[i as int].node_id == NodeId(x));
                }
                if has_voter(next, NodeId(x)) {
                    let k = choose|k: int|
                        0 <= k < next.len() && #[trigger] next[k].node_id == NodeId(x);
                    if k < i {
                        assert(taken[k].node_id == NodeId(x));
                    }
                }
            }
        }
        i = i + 1;
    }
    assert(all.take(i as int) =~= all);
    if !contains_voter(initial_voters, node_id) {
        let mut m = String::from_str("this node (");
        let text = node_id.text();
        m.append(text.as_str());
        m.append(") must be included in initial_voters");
        return Err(XraftError::InvalidBootstrapConfig { reason: m });
    }
    Ok(())
}

proof fn lemma_duplicate_stays(voters: Seq<VoterView>, n: int, m: int)
    requires
        0 <= n <= m <= voters.len(),
        first_duplicate(voters.take(n)) is Some,
    ensures
        first_duplicate(voters.take(m)) == first_duplicate(voters.take(n)),
    decreases m - n,
{
    if n < m {
        lemma_duplicate_stays(voters, n, m - 1);
        assert(voters.take(m).drop_last() =~= voters.take(m - 1));
    }
}

impl<S: StateMachine, L: Listener> RaftNode<S, L> {
    /// Everything but the protocol state is the same.
    pub open spec fn same_but_state(self, other: Self) -> bool {
        &&& self.config == other.config
        &&& self.state_machine == other.state_machine
        &&& self.listener == other.listener
        &&& self.bootstrapped == other.bootstrapped
    }

    /// The node that [`RaftNode::new`] makes of a state machine that was
    /// restored (or left alone, where there is no snapshot).
    pub open spec fn started(
        node: Self,
        node_id: NodeId,
        stored: Option<StoredDataView>,
        restored: Option<Result<(), XraftErrorView>>,
        now: u64,
        timeout: u64,
    ) -> bool {
        let fresh = NodeStateView::unattached(node_id, ClusterId(0), now);
        match stored {
            None => node.state@ == fresh && !node.bootstrapped,
            Some(d) => {
                &&& node.bootstrapped
                &&& node.state@ == (match restored {
                    Some(Err(_)) => with_snapshot(
                        with_quorum_state(fresh, d.quorum_state),
                        d.snapshot,
                    ),
                    _ => recovered(fresh, d, (now + timeout) as u64),
                })
            },
        }
    }

    /// Creates a node. With data in the stores it recovers and becomes a
    /// follower; without, it starts unattached and waits for bootstrap.
    ///
    /// If the state machine reports the snapshot as one that needs recovery,
    /// the node stays unattached and cannot be bootstrapped: an operator has
    /// to look at it. Any other error of the state machine is returned.
    pub fn new(
        config: RaftConfig,
        node_id: NodeId,
        stored: Option<StoredData>,
        state_machine: S,
        listener: L,
        now: u64,
        timeout: u64,
    ) -> (r: Result<Self, XraftError>)
        requires
            now + timeout <= u64::MAX,
            config.timing_error() is None ==> (stored matches Some(d) ==> (d.snapshot matches Some(s)
                ==> s.metadata.last_included_offset < u64::MAX)),
        ensures
            config.timing_error() matches Some(m) ==> (r matches Err(e) && e@
                == XraftErrorView::InvalidConfig(m)),
            config.timing_error() is None ==> {
                let view = match stored {
                    Some(d) => Some(d@),
                    None => None,
                };
                if stored is None || stored->0.snapshot is None {
                    &&& r matches Ok(node)
                    &&& Self::started(node, node_id, view, None, now, timeout)
                    &&& node.config == config
                    &&& node.state_machine == state_machine
                    &&& node.listener == listener
                } else {
                    let data = stored->0.snapshot->0@.app_snapshot;
                    match r {
                        Ok(node) => {
                            &&& node.config == config
                            &&& node.listener == listener
                            &&& {
                                ||| state_machine.restore_step(data, &node.state_machine, Ok(()))
                                    && Self::started(node, node_id, view, None, now, timeout)
                                ||| state_machine.restore_step(
                                    data,
                                    &node.state_machine,
                                    Err(XraftErrorView::RecoveryRequired),
                                ) && Self::started(
                                    node,
                                    node_id,
                                    view,
                                    Some(Err(XraftErrorView::RecoveryRequired)),
                                    now,
                                    timeout,
                                )
                            }
                        },
                        Err(e) => {
                            &&& e@ != XraftErrorView::RecoveryRequired
                            &&& exists|after: S| #[trigger]
                                state_machine.restore_step(data, &after, Err(e@))
                        },
                    }
                }
            },
    {
        match config.validate() {
            Ok(_) => {},
            Err(reason) => {
                return Err(XraftError::InvalidConfig { reason });
            },
        }
        let mut node = RaftNode {
            state: NodeState::new_unattached(node_id, now),
            config,
            state_machine,
            listener,
            bootstrapped: false,
        };
        if let Some(data) = stored {
            match node.recover(data, now, timeout) {
                Ok(_) => {},
                Err(XraftError::RecoveryRequired) => {
                    node.bootstrapped = true;
                },
                Err(e) => {
                    assert(e@ != XraftErrorView::RecoveryRequired);
                    return Err(e);
                },
            }
        }
        Ok(node)
    }

    /// Recovers the node's state from what its stores hold.
    ///
    /// Restores term, vote, leader and cluster from the quorum state, voter
    /// set and boundaries from the snapshot, and the boundaries of the log.
    /// The log is searched for voters only where there is a quorum state,
    /// which shows that the node took part in elections, and no snapshot.
    /// Then the node becomes a follower, even with incomplete data, so that it
    /// cannot be bootstrapped again.
    pub fn recover(&mut self, stored: StoredData, now: u64, timeout: u64) -> (r: Result<
        (),
        XraftError,
    >)
        requires
            now + timeout <= u64::MAX,
            stored.snapshot matches Some(s) ==> s.metadata.last_included_offset < u64::MAX,
        ensures
            final(self).config == old(self).config,
            final(self).listener == old(self).listener,
            match stored.snapshot {
                Some(s) => old(self).state_machine.restore_step(
                    s@.app_snapshot,
                    &final(self).state_machine,
                    outcome(r),
                ),
                None => r is Ok && final(self).state_machine == old(self).state_machine,
            },
            r is Ok ==> {
                let end = final(self).state.log_end_offset;
                &&& end >= stored.log_end_offset
                &&& stored.snapshot matches Some(snap) ==> end
                    > snap.metadata.last_included_offset
                &&& end == stored.log_end_offset || (stored.snapshot matches Some(snap) && end
                    == snap.metadata.last_included_offset + 1)
            },
            match r {
                Ok(_) => {
                    &&& final(self).state@ == recovered(
                        old(self).state@,
                        stored@,
                        (now + timeout) as u64,
                    )
                    &&& final(self).bootstrapped
                },
                Err(_) => {
                    &&& final(self).state@ == with_snapshot(
                        with_quorum_state(old(self).state@, stored.quorum_state),
                        stored@.snapshot,
                    )
                    &&& final(self).bootstrapped == old(self).bootstrapped
                },
            },
    {
        let ghost d = stored@;
        let ghost s0 = self.state@;
        let has_quorum_state = match stored.quorum_state {
            Some(qs) => {
                self.state.current_term = qs.current_term;
                self.state.voted_for = qs.voted_for;
                self.state.leader_id = qs.leader_id;
                self.state.cluster_id = qs.cluster_id;
                true
            },
            None => false,
        };
        assert(self.state@ =~= with_quorum_state(s0, d.quorum_state));
        let mut has_voters_from_snapshot = false;
        let mut snapshot_end: u64 = 0;
        match stored.snapshot {
            Some(snap) => {
                has_voters_from_snapshot = true;
                snapshot_end = snap.metadata.last_included_offset + 1;
                self.state.voter_set = snap.metadata.voters;
                self.state.log_start_offset = snapshot_end;
                self.state.high_watermark = snapshot_end;
                assert(self.state@ =~= with_snapshot(
                    with_quorum_state(s0, d.quorum_state),
                    d.snapshot,
                ));
                match self.state_machine.restore(snap.app_snapshot) {
                    Ok(_) => {},
                    Err(e) => {
                        return Err(e);
                    },
                }
            },
            None => {},
        }
        let store_start: u64 = stored.log_start_offset;
        let store_end: u64 = stored.log_end_offset;
        if store_start > self.state.log_start_offset {
            self.state.log_start_offset = store_start;
        }
        self.state.log_end_offset = if store_end >= snapshot_end {
            store_end
        } else {
            snapshot_end
        };
        if !has_voters_from_snapshot && has_quorum_state && store_end > store_start {
            if let Some(voters) = find_latest_voters(&stored.entries) {
                self.state.voter_set = voters;
            }
        }
        self.state.role = Role::Follower;
        self.state.election_deadline = now + timeout;
        self.bootstrapped = true;
        assert(self.state@ =~= recovered(s0, d, (now + timeout) as u64));
        Ok(())
    }

    /// Whether the node may still be bootstrapped.
    pub fn check_bootstrap_allowed(&self) -> (r: Result<(), XraftError>)
        ensures
            match r {
                Ok(_) => bootstrap_refused(self.bootstrapped, self.state.role) is None,
                Err(e) => {
                    &&& bootstrap_refused(self.bootstrapped, self.state.role) is Some
                    &&& e@ == XraftErrorView::AlreadyBootstrapped(
                        bootstrap_refused(self.bootstrapped, self.state.role)->0,
                    )
                },
            },
    {
        if self.bootstrapped {
            return Err(
                XraftError::AlreadyBootstrapped {
                    reason: String::from_str("node has already been bootstrapped or recovered"),
                },
            );
        }
        if self.state.role != Role::Unattached {
            return Err(
                XraftError::AlreadyBootstrapped {
                    reason: String::from_str("node is not in Unattached state"),
                },
            );
        }
        Ok(())
    }

    /// Why bootstrap fails, if it does.
    pub open spec fn bootstrap_failure(
        self,
        cluster_id: ClusterId,
        voters: Seq<VoterView>,
        has_data: bool,
    ) -> Option<XraftErrorView> {
        if bootstrap_refused(self.bootstrapped, self.state.role) is Some {
            Some(
                XraftErrorView::AlreadyBootstrapped(
                    bootstrap_refused(self.bootstrapped, self.state.role)->0,
                ),
            )
        } else if has_data {
            Some(
                XraftErrorView::AlreadyBootstrapped(
                    "existing data detected (log, quorum-state, or snapshot)"@,
                ),
            )
        } else {
            match bootstrap_error(self.state.node_id, cluster_id, voters) {
                Some(m) => Some(XraftErrorView::InvalidBootstrapConfig(m)),
                None => None,
            }
        }
    }

    /// First-time cluster formation.
    ///
    /// Stores the cluster and the voter set in memory, sets term 0 with no
    /// vote, becomes a follower and starts the election timer. Nothing is
    /// written: the quorum state is first saved when the node votes. Refused
    /// where the node or its stores (`has_data`) already hold state.
    pub fn bootstrap(
        &mut self,
        cluster_id: ClusterId,
        initial_voters: Vec<VoterInfo>,
        has_data: bool,
        now: u64,
        timeout: u64,
    ) -> (r: Result<(), XraftError>)
        requires
            now + timeout <= u64::MAX,
        ensures
            match old(self).bootstrap_failure(cluster_id, voter_views(initial_voters@), has_data) {
                Some(error) => {
                    &&& r matches Err(e) && e@ == error
                    &&& *final(self) == *old(self)
                },
                None => {
                    &&& r is Ok
                    &&& final(self).bootstrapped
                    &&& final(self).config == old(self).config
                    &&& final(self).state_machine == old(self).state_machine
                    &&& final(self).listener == old(self).listener
                    &&& final(self).state@ == founded(
                        old(self).state@,
                        cluster_id,
                        voter_views(initial_voters@),
                        (now + timeout) as u64,
                    )
                },
            },
    {
        match self.check_bootstrap_allowed() {
            Ok(_) => {},
            Err(e) => {
                return Err(e);
            },
        }
        if has_data {
            return Err(
                XraftError::AlreadyBootstrapped {
                    reason: String::from_str(
                        "existing data detected (log, quorum-state, or snapshot)",
                    ),
                },
            );
        }
        match validate_bootstrap_config(self.state.node_id, &cluster_id, &initial_voters) {
            Ok(_) => {},
            Err(e) => {
                return Err(e);
            },
        }
        self.state.cluster_id = cluster_id;
        self.state.voter_set = initial_voters;
        self.state.current_term = Term::zero();
        self.state.voted_for = None;
        self.state.leader_id = None;
        self.state.role = Role::Follower;
        self.state.votes_received.clear();
        self.state.pre_votes_received.clear();
        self.state.election_deadline = now + timeout;
        self.bootstrapped = true;
        Ok(())
    }

    /// Whether the election timer has run out at `now` in a role that has
    /// one.
    pub fn tick(&self, now: u64) -> (due: bool)
        ensures
            due == (timer_of(self.state@) matches Some(d) && now >= d),
    {
        (self.state.role == Role::Follower || self.state.role == Role::Candidate) && now
            >= self.state.election_deadline
    }

    /// When the election timer runs out, in a role that has one.
    pub fn poll(&self) -> (r: Option<u64>)
        ensures
            r == timer_of(self.state@),
    {
        if self.state.role != Role::Follower && self.state.role != Role::Candidate {
            return None;
        }
        Some(self.state.election_deadline)
    }

    /// True of a message that is fenced off: once a node belongs to a cluster,
    /// messages of no cluster or of another are refused.
    pub open spec fn fenced(self, cluster_id: ClusterId) -> bool {
        self.bootstrapped && self.state.cluster_id.0 != 0 && (cluster_id.0 == 0
            || self.state.cluster_id != cluster_id)
    }

    /// Dispatches an inbound message to the handler of its kind. Messages of
    /// other kinds than votes are passed over.
    pub fn handle_rpc(
        &mut self,
        envelope: &RpcEnvelope,
        now: u64,
        timeout: u64,
    ) -> (r: Result<RpcStep, XraftError>)
        requires
            now + timeout <= u64::MAX,
        ensures
            final(self).same_but_state(*old(self)),
            if old(self).fenced(envelope.cluster_id) {
                &&& r matches Err(e) && e@ == XraftErrorView::InvalidClusterId
                &&& final(self).state@ == old(self).state@
            } else {
                &&& r is Ok
                &&& (final(self).state@, r->Ok_0) == dispatched(
                    old(self).state@,
                    envelope@,
                    (now + timeout) as u64,
                )
            },
    {
        if self.bootstrapped && !self.state.cluster_id.is_nil() && (envelope.cluster_id.is_nil()
            || self.state.cluster_id != envelope.cluster_id) {
            return Err(XraftError::InvalidClusterId);
        }
        match &envelope.payload {
            RpcPayload::VoteRequest(req) => {
                let step = self.handle_vote_request(*req, now, timeout);
                Ok(RpcStep::VoteRequest(*req, step))
            },
            RpcPayload::VoteResponse(resp) => {
                let step = self.handle_vote_response(envelope.source, *resp, now, timeout);
                Ok(RpcStep::VoteResponse(step))
            },
            _ => Ok(RpcStep::Ignored),
        }
    }

    /// The message that carries an answer to a vote request.
    pub fn vote_reply(&self, response: VoteResponse) -> (m: RpcEnvelope)
        ensures
            m@ == message_of(self.state@, RpcPayloadView::VoteResponse(response)),
    {
        RpcEnvelope {
            cluster_id: self.state.cluster_id,
            leader_epoch: Term::zero(),
            source: self.state.node_id,
            payload: RpcPayload::VoteResponse(response),
        }
    }

    /// Handles an election timeout: the node becomes a candidate of the next
    /// term with its own vote. Returns the state to save before any message
    /// is sent.
    pub fn handle_election_timeout(&mut self) -> (r: Result<QuorumState, XraftError>)
        requires
            old(self).state.role == Role::Follower || old(self).state.role == Role::Candidate
                ==> old(self).state.current_term.0 < u64::MAX,
        ensures
            final(self).same_but_state(*old(self)),
            if old(self).state.role == Role::Follower || old(self).state.role == Role::Candidate {
                &&& final(self).state@ == standing(old(self).state@)
                &&& r is Ok
                &&& r->Ok_0 == vote_record(final(self).state@, Some(old(self).state.node_id))
            } else {
                &&& final(self).state@ == old(self).state@
                &&& r matches Err(e) && e@ == XraftErrorView::InvalidElectionState(
                    "cannot start election from role "@ + old(self).state.role.spec_name(),
                )
            },
    {
        if self.state.role != Role::Follower && self.state.role != Role::Candidate {
            let mut m = String::from_str("cannot start election from role ");
            m.append(self.state.role.name());
            return Err(XraftError::InvalidElectionState { reason: m });
        }
        self.state.current_term = Term(self.state.current_term.0 + 1);
        self.state.voted_for = Some(self.state.node_id);
        self.state.role = Role::Candidate;
        self.state.leader_id = None;
        self.state.votes_received.clear();
        self.state.votes_received.insert(self.state.node_id);
        Ok(self.vote_state(self.state.voted_for))
    }

    fn vote_state(&self, voted_for: Option<NodeId>) -> (qs: QuorumState)
        ensures
            qs == vote_record(self.state@, voted_for),
    {
        QuorumState {
            current_term: self.state.current_term,
            voted_for,
            leader_id: None,
            leader_epoch: Term::zero(),
            cluster_id: self.state.cluster_id,
        }
    }

    /// Starts the election timer anew.
    pub fn restart_election_timer(&mut self, now: u64, timeout: u64)
        requires
            now + timeout <= u64::MAX,
        ensures
            final(self).same_but_state(*old(self)),
            final(self).state@ == (NodeStateView {
                election_deadline: (now + timeout) as u64,
                ..old(self).state@
            }),
    {
        self.state.election_deadline = now + timeout;
    }

    /// First part of a vote request: a candidate that is no voter is turned
    /// down; a higher term is adopted, and to be saved even if no vote is
    /// given.
    pub fn handle_vote_request(
        &mut self,
        request: VoteRequest,
        now: u64,
        timeout: u64,
    ) -> (step: VoteRequestStep)
        requires
            now + timeout <= u64::MAX,
        ensures
            final(self).same_but_state(*old(self)),
            (final(self).state@, step) == requested(
                old(self).state@,
                request,
                (now + timeout) as u64,
            ),
    {
        if !self.state.is_in_voter_set(request.candidate_id) {
            return VoteRequestStep::Reply(self.vote_answer(&request, false));
        }
        if request.term.0 > self.state.current_term.0 {
            self.adopt_term(request.term, now + timeout);
            return VoteRequestStep::Persist(self.vote_state(None));
        }
        VoteRequestStep::Decide
    }

    fn vote_answer(&self, request: &VoteRequest, vote_granted: bool) -> (a: VoteResponse)
        ensures
            a == answer(self.state@, *request, vote_granted),
    {
        VoteResponse {
            term: self.state.current_term,
            vote_granted,
            is_pre_vote: request.is_pre_vote,
        }
    }

    fn adopt_term(&mut self, term: Term, deadline: u64)
        ensures
            final(self).same_but_state(*old(self)),
            final(self).state@ == in_higher_term(old(self).state@, term, deadline),
    {
        self.state.current_term = term;
        self.state.voted_for = None;
        self.state.role = Role::Follower;
        self.state.leader_id = None;
        self.state.votes_received.clear();
        self.state.election_deadline = deadline;
    }

    /// Second part of a vote request: grants the vote if the candidate's term
    /// is not stale, no other candidate has it, and the candidate's log is at
    /// least as current as the log of this node, whose last entry is at
    /// `last_offset` and of `last_term`. A vote that is given is to be saved
    /// before the answer is sent, and the election timer restarted once it is
    /// saved; a pre-vote is only answered.
    pub fn decide_vote(
        &mut self,
        request: VoteRequest,
        last_offset: u64,
        last_term: Term,
    ) -> (d: VoteDecision)
        ensures
            final(self).same_but_state(*old(self)),
            vote_decided(
                old(self).state@,
                request,
                last_offset,
                last_term,
                final(self).state@,
                d,
            ),
            d.response.vote_granted <==> {
                &&& request.term.0 >= old(self).state.current_term.0
                &&& old(self).state.voted_for is None || old(self).state.voted_for == Some(
                    request.candidate_id,
                )
                &&& request.last_log_term.0 >= last_term.0
                &&& request.last_log_term.0 == last_term.0 ==> request.last_log_offset.0
                    >= last_offset
            },
    {
        if request.term.0 < self.state.current_term.0 {
            return VoteDecision { response: self.vote_answer(&request, false), persist: None };
        }
        let can_vote = match self.state.voted_for {
            None => true,
            Some(voted) => voted == request.candidate_id,
        };
        let log_ok = request.last_log_term.0 > last_term.0 || (request.last_log_term == last_term
            && request.last_log_offset.0 >= last_offset);
        let vote_granted = can_vote && log_ok;
        let mut persist: Option<QuorumState> = None;
        if vote_granted && !request.is_pre_vote {
            self.state.voted_for = Some(request.candidate_id);
            persist = Some(self.vote_state(self.state.voted_for));
        }
        VoteDecision { response: self.vote_answer(&request, vote_granted), persist }
    }

    /// The vote requests of a candidate to all other voters, with the last
    /// entry of its log at `last_offset` and of `last_term`.
    pub fn broadcast_vote_requests(
        &self,
        last_offset: u64,
        last_term: Term,
    ) -> (r: Vec<(NodeId, RpcEnvelope)>)
        ensures
            r@.map_values(|m: (NodeId, RpcEnvelope)| m.0) == other_voters(
                self.state@.voter_set,
                self.state.node_id,
            ),
            forall|i: int|
                0 <= i < r@.len() ==> (#[trigger] r@[i]).1@ == message_of(
                    self.state@,
                    RpcPayloadView::VoteRequest(request_of(self.state@, last_offset, last_term)),
                ),
    {
        let request = VoteRequest {
            term: self.state.current_term,
            candidate_id: self.state.node_id,
            last_log_offset: Offset(last_offset),
            last_log_term: last_term,
            is_pre_vote: false,
        };
        let ghost voters = self.state@.voter_set;
        let ghost id = self.state.node_id;
        let ghost message = message_of(self.state@, RpcPayloadView::VoteRequest(request));
        let mut r: Vec<(NodeId, RpcEnvelope)> = Vec::new();
        let mut i: usize = 0;
        proof {
            reveal(Seq::filter);
            assert(voters.take(0) =~= Seq::<VoterView>::empty());
            assert(r@.map_values(|m: (NodeId, RpcEnvelope)| m.0) =~= other_voters(
                voters.take(0),
                id,
            ));
        }
        while i < self.state.voter_set.len()
            invariant
                i <= self.state.voter_set@.len(),
                voters == self.state@.voter_set,
                id == self.state.node_id,
                message == message_of(self.state@, RpcPayloadView::VoteRequest(request)),
                r@.map_values(|m: (NodeId, RpcEnvelope)| m.0) == other_voters(
                    voters.take(i as int),
                    id,
                ),
                forall|k: int| 0 <= k < r@.len() ==> (#[trigger] r@[k]).1@ == message,
            decreases self.state.voter_set@.len() - i,
        {
            let voter = self.state.voter_set[i].node_id;
            let ghost prev = r@;
            proof {
                reveal(Seq::filter);
                assert(voters[i as int] == self.state.voter_set@[i as int]@);
                assert(voters.take(i + 1).drop_last() =~= voters.take(i as int));
                assert(voters.take(i + 1).last() == voters[i as int]);
            }
            if voter != self.state.node_id {
                r.push(
                    (
                        voter,
                        RpcEnvelope {
                            cluster_id: self.state.cluster_id,
                            leader_epoch: Term::zero(),
                            source: self.state.node_id,
                            payload: RpcPayload::VoteRequest(request),
                        },
                    ),
                );
                proof {
                    assert(r@.map_values(|m: (NodeId, RpcEnvelope)| m.0) =~= prev.map_values(
                        |m: (NodeId, RpcEnvelope)| m.0,
                    ).push(voter));
                    assert(other_voters(voters.take(i + 1), id) =~= other_voters(
                        voters.take(i as int),
                        id,
                    ).push(voter));
                }
            }
            i = i + 1;
        }
        assert(voters.take(i as int) =~= voters);
        r
    }

    /// Handles a vote response: a higher term makes the node step down; a
    /// vote of a voter for this candidacy is counted.
    pub fn handle_vote_response(
        &mut self,
        from: NodeId,
        response: VoteResponse,
        now: u64,
        timeout: u64,
    ) -> (step: VoteResponseStep)
        requires
            now + timeout <= u64::MAX,
        ensures
            final(self).same_but_state(*old(self)),
            (final(self).state@, step) == responded(
                old(self).state@,
                from,
                response,
                (now + timeout) as u64,
            ),
    {
        if response.term.0 > self.state.current_term.0 {
            self.adopt_term(response.term, now + timeout);
            return VoteResponseStep::Persist(self.vote_state(None));
        }
        if self.state.role != Role::Candidate || response.term != self.state.current_term {
            return VoteResponseStep::Done;
        }
        if response.is_pre_vote {
            return VoteResponseStep::Done;
        }
        if !self.state.is_in_voter_set(from) {
            return VoteResponseStep::Done;
        }
        if response.vote_granted {
            self.state.votes_received.insert(from);
            if self.has_quorum() {
                return VoteResponseStep::Won;
            }
        }
        VoteResponseStep::Done
    }

    /// True if the votes received constitute a majority of the voter set.
    pub fn has_quorum(&self) -> (b: bool)
        ensures
            b == quorum_reached(self.state@),
    {
        let total: usize = self.state.voter_set.len();
        if total == 0 {
            return false;
        }
        let needed: usize = total / 2 + 1;
        self.state.votes_received.len() >= needed
    }

    /// The entries with which a new leader continues a log that ends at
    /// `log_end`: always a leader change message; the voter set behind it
    /// where the log holds none yet, that is, in the first election of the
    /// cluster.
    pub fn leader_entries(&self, log_end: u64, log_has_voters: bool) -> (r: (
        LogEntry,
        Option<LogEntry>,
    ))
        requires
            !log_has_voters ==> log_end < u64::MAX,
        ensures
            opens_with(
                self.state@,
                log_end,
                log_has_voters,
                r.0@,
                match r.1 {
                    Some(e) => Some(e@),
                    None => None,
                },
            ),
    {
        let first = LogEntry::leader_change(log_end, self.state.current_term);
        if log_has_voters {
            return (first, None);
        }
        let record = VotersRecord { version: 1, voters: clone_voters(&self.state.voter_set) };
        let second = LogEntry::voters_record(
            Offset(log_end + 1),
            self.state.current_term,
            &record,
        );
        (first, Some(second))
    }

    /// Where the log is to be truncated when the second entry of a new leader
    /// could not be appended to a log that now ends at `log_end`.
    pub fn rollback_offset(log_end: u64) -> (o: u64)
        ensures
            o == (if log_end > 0 {
                log_end - 1
            } else {
                0
            }),
    {
        log_end.saturating_sub(1)
    }

    /// Transitions to leader after its entries have been appended; the log
    /// now ends at `log_end`. A sole voter commits them at once. The listener
    /// is told.
    pub fn become_leader(&mut self, log_end: u64)
        ensures
            final(self).config == old(self).config,
            final(self).state_machine == old(self).state_machine,
            final(self).bootstrapped == old(self).bootstrapped,
            old(self).listener.leader_change_step(
                old(self).state.node_id,
                old(self).state.current_term,
                &final(self).listener,
            ),
            final(self).state@ == leading(old(self).state@, log_end),
    {
        self.state.role = Role::Leader;
        self.state.leader_id = Some(self.state.node_id);
        self.state.log_end_offset = log_end;
        if self.state.voter_set.len() == 1 {
            self.state.high_watermark = self.state.log_end_offset;
        }
        self.listener.handle_leader_change(self.state.node_id, self.state.current_term);
    }

    /// Returns the current public consensus state projection.
    pub fn read(&self) -> (r: ConsensusState)
        ensures
            r@ == self.state@.projection(),
    {
        self.state.project()
    }

    /// Returns `true` if the node has been bootstrapped.
    pub fn is_bootstrapped(&self) -> (b: bool)
        ensures
            b == self.bootstrapped,
    {
        self.bootstrapped
    }

    /// Returns the cluster ID assigned to this node.
    pub fn cluster_id(&self) -> (id: ClusterId)
        ensures
            id == self.state.cluster_id,
    {
        self.state.cluster_id
    }

    /// Returns the node's own ID.
    pub fn node_id(&self) -> (id: NodeId)
        ensures
            id == self.state.node_id,
    {
        self.state.node_id
    }

    /// Returns the current voter set.
    pub fn voter_set(&self) -> (v: &Vec<VoterInfo>)
        ensures
            *v == self.state.voter_set,
    {
        &self.state.voter_set
    }

    /// Returns the current election deadline.
    pub fn election_deadline(&self) -> (d: u64)
        ensures
            d == self.state.election_deadline,
    {
        self.state.election_deadline
    }
}

/// A vote request never takes a node back to an earlier term, and within a
/// term never moves a vote to another candidate.
pub proof fn law_vote_request_keeps_vote(
    s: NodeStateView,
    req: VoteRequest,
    last_offset: u64,
    last_term: Term,
    deadline: u64,
)
    ensures
        ({
            let after = decided(
                requested(s, req, deadline).0,
                req,
                last_offset,
                last_term,
            );
            &&& after.current_term.0 >= s.current_term.0
            &&& after.current_term == s.current_term && s.voted_for is Some ==> after.voted_for
                == s.voted_for
        }),
{
}

/// A vote response never takes a node back to an earlier term, never changes
/// a vote within a term, and wins an election only with a majority.
pub proof fn law_vote_response_keeps_vote(
    s: NodeStateView,
    from: NodeId,
    response: VoteResponse,
    deadline: u64,
)
    ensures
        ({
            let (after, step) = responded(s, from, response, deadline);
            &&& after.current_term.0 >= s.current_term.0
            &&& after.current_term == s.current_term ==> after.voted_for == s.voted_for
            &&& step == VoteResponseStep::Won ==> {
                &&& s.role == Role::Candidate
                &&& after.votes_received.len() >= majority_of(s.voter_set.len())
                &&& has_voter(s.voter_set, from)
            }
        }),
{
}

/// A node that crashes after it saved a vote recovers the term and the vote
/// that it had: `fresh` recovers from what `s` saves with its vote.
pub proof fn law_recovery_restores_vote(
    s: NodeStateView,
    fresh: NodeStateView,
    d: StoredDataView,
    deadline: u64,
)
    requires
        d.quorum_state == Some(vote_record(s, s.voted_for)),
    ensures
        recovered(fresh, d, deadline).current_term == s.current_term,
        recovered(fresh, d, deadline).voted_for == s.voted_for,
        recovered(fresh, d, deadline).cluster_id == s.cluster_id,
{
}

/// The voter set that the first leader appends is the one that recovery finds
/// in the log, whatever entries of other types follow.
pub proof fn law_recovery_finds_first_voters(
    before: Seq<LogEntryView>,
    voters_entry: LogEntryView,
    record: VotersRecordView,
    after: Seq<LogEntryView>,
)
    requires
        voters_entry.entry_type == EntryType::VotersRecord,
        VotersRecordView::decoding(voters_entry.payload) == Some(record),
        forall|i: int|
            0 <= i < after.len() ==> (#[trigger] after[i]).entry_type != EntryType::VotersRecord,
    ensures
        latest_voters(before.push(voters_entry) + after) == Some(record.voters),
    decreases after.len(),
{
    let all = before.push(voters_entry) + after;
    if after.len() == 0 {
        assert(all =~= before.push(voters_entry));
        assert(all.last() == voters_entry);
    } else {
        law_recovery_finds_first_voters(before, voters_entry, record, after.drop_last());
        assert(all.drop_last() =~= before.push(voters_entry) + after.drop_last());
        assert(all.last() == after.last());
    }
}

/// A node that has been bootstrapped or recovered cannot be bootstrapped.
pub proof fn law_bootstrap_happens_once<S: StateMachine, L: Listener>(
    node: RaftNode<S, L>,
    cluster_id: ClusterId,
    voters: Seq<VoterView>,
    has_data: bool,
)
    requires
        node.bootstrapped || has_data,
    ensures
        node.bootstrap_failure(cluster_id, voters, has_data) matches Some(
            XraftErrorView::AlreadyBootstrapped(_),
        ),
{
}

} // verus!
