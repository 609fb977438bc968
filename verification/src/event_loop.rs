//! The transitions of the event loop.
//!
//! The loop itself waits for messages and timers. For each it calls one of
//! the functions here with the current time and a fresh random election
//! timeout, both in milliseconds, publishes the state that comes back, and
//! executes the actions.
use vstd::prelude::*;

use crate::config::RaftConfig;
use crate::consensus_state::{ConsensusState, Role};
use crate::election::{
    election_actions, leader_change_entry, stepped_down, vote_actions, vote_answer, voted,
    with_leader_change, would_grant, ElectionManager,
};
use crate::io_action::{IoAction, IoActionBatch, IoActionView};
use crate::listener::Listener;
use crate::node_state::{NodeState, NodeStateView};
use crate::quorum_state::QuorumState;
use crate::rpc::{RpcEnvelope, RpcEnvelopeView, RpcPayload, RpcPayloadView};
use crate::traits::StateMachine;
use crate::types::Term;
use crate::voter::has_voter;

verus! {

/// Messages that can be sent to the event loop.
pub enum EventLoopMessage {
    Rpc(RpcEnvelope),
    Shutdown,
}

/// A timer that has run out.
#[derive(Debug, Clone, Copy, PartialEq, Eq, Structural)]
pub enum DueTimer {
    CheckQuorum,
    Election,
}

/// What the loop is to do after a transition: publish the state, then execute
/// the actions.
#[derive(Debug)]
pub struct LoopStep {
    pub publish: ConsensusState,
    pub batch: IoActionBatch,
}

/// The part of the event loop that decides.
pub struct EventLoop<S: StateMachine, L: Listener> {
    pub state: NodeState,
    pub config: RaftConfig,
    pub state_machine: S,
    pub listener: L,
}

/// The outcome of a transition: the new state, the actions, and whether the
/// node became leader.
pub struct Transition {
    pub state: NodeStateView,
    pub actions: Seq<IoActionView>,
    pub elected: bool,
}

/// A timer of the state that has run out at `now`.
pub open spec fn due_timer(s: NodeStateView, now: u64) -> Option<DueTimer> {
    match s.role {
        Role::Leader => if now >= s.check_quorum_deadline {
            Some(DueTimer::CheckQuorum)
        } else {
            None
        },
        Role::Follower | Role::Candidate => if now >= s.election_deadline {
            Some(DueTimer::Election)
        } else {
            None
        },
        Role::Unattached => None,
    }
}

/// When the loop is to wake up without a message.
pub open spec fn wake_at(s: NodeStateView) -> u64 {
    if s.role == Role::Leader {
        s.check_quorum_deadline
    } else {
        s.election_deadline
    }
}

/// The state and actions of a node that has just won an election.
pub open spec fn elected(
    s: NodeStateView,
    actions: Seq<IoActionView>,
    now: u64,
    timeout: u64,
) -> Transition {
    let l = s.as_leader(now, timeout);
    Transition {
        state: with_leader_change(l),
        actions: actions.push(
            IoActionView::PersistQuorumState(
                QuorumState {
                    current_term: l.current_term,
                    voted_for: l.voted_for,
                    leader_id: Some(l.node_id),
                    leader_epoch: l.current_term,
                    cluster_id: l.cluster_id,
                },
            ),
        ).push(IoActionView::AppendLog(seq![leader_change_entry(l)])),
        elected: true,
    }
}

/// The quorum check: a leader without an active majority steps down, and
/// keeps its vote, so that it cannot vote for another in the same term.
pub open spec fn quorum_checked(s: NodeStateView, now: u64, timeout: u64) -> Transition {
    if s.quorum_active(now, s.check_quorum_interval) {
        Transition {
            state: NodeStateView {
                check_quorum_deadline: (now + s.check_quorum_interval) as u64,
                ..s
            },
            actions: seq![],
            elected: false,
        }
    } else {
        let f = s.as_follower(s.current_term, None, (now + timeout) as u64);
        Transition {
            state: NodeStateView { voted_for: s.voted_for, ..f },
            actions: seq![
                IoActionView::PersistQuorumState(
                    QuorumState {
                        current_term: s.current_term,
                        voted_for: s.voted_for,
                        leader_id: None,
                        leader_epoch: Term(0),
                        cluster_id: s.cluster_id,
                    },
                ),
            ],
            elected: false,
        }
    }
}

/// The election timeout of a voter: it becomes a candidate, and the leader at
/// once, with `interval` between its quorum checks, where it is the only
/// voter.
pub open spec fn timed_out(
    s: NodeStateView,
    now: u64,
    timeout: u64,
    interval: u64,
) -> Transition {
    let deadline = (now + timeout) as u64;
    let c = s.as_candidate(deadline);
    let actions = election_actions(s, deadline);
    if s.voter_set.len() == 1 {
        elected(c, actions, now, interval)
    } else {
        Transition { state: c, actions, elected: false }
    }
}

/// The term by which a message can make a node step down. Pre-votes never do.
pub open spec fn message_term(m: RpcEnvelopeView) -> Option<Term> {
    match m.payload {
        RpcPayloadView::VoteRequest(req) => if req.is_pre_vote {
            None
        } else {
            Some(req.term)
        },
        RpcPayloadView::VoteResponse(resp) => if resp.is_pre_vote {
            None
        } else {
            Some(resp.term)
        },
        RpcPayloadView::FetchResponse(resp) => Some(resp.leader_epoch),
        _ => Some(m.leader_epoch),
    }
}

/// What a message of the node's own cluster does.
pub open spec fn received(
    s: NodeStateView,
    m: RpcEnvelopeView,
    now: u64,
    timeout: u64,
) -> Transition {
    let deadline = (now + timeout) as u64;
    let down = match message_term(m) {
        Some(t) => t.0 > s.current_term.0,
        None => false,
    };
    let d = match message_term(m) {
        Some(t) => stepped_down(s, t, deadline),
        None => s,
    };
    let actions = if down {
        seq![
            IoActionView::PersistQuorumState(
                QuorumState {
                    current_term: d.current_term,
                    voted_for: None,
                    leader_id: None,
                    leader_epoch: Term(0),
                    cluster_id: d.cluster_id,
                },
            ),
        ]
    } else {
        Seq::<IoActionView>::empty()
    };
    let same = Transition { state: d, actions, elected: false };
    match m.payload {
        RpcPayloadView::VoteRequest(req) => if req.is_pre_vote {
            Transition {
                actions: actions.push(
                    vote_answer(d, req.candidate_id, would_grant(d, req), true),
                ),
                ..same
            }
        } else {
            Transition {
                state: voted(d, req, deadline),
                actions: actions + vote_actions(d, req, deadline),
                elected: false,
            }
        },
        RpcPayloadView::VoteResponse(resp) => if resp.is_pre_vote {
            if resp.vote_granted && resp.term == d.current_term {
                Transition {
                    state: NodeStateView {
                        pre_votes_received: d.pre_votes_received.insert(m.source.0),
                        ..d
                    },
                    ..same
                }
            } else {
                same
            }
        } else if !down && d.role == Role::Candidate && resp.vote_granted && resp.term
            == d.current_term && has_voter(d.voter_set, m.source) {
            let v = NodeStateView {
                votes_received: d.votes_received.insert(m.source.0),
                ..d
            };
            if v.votes_received.len() >= v.majority() {
                elected(v, actions, now, timeout)
            } else {
                Transition { state: v, ..same }
            }
        } else {
            same
        },
        RpcPayloadView::FetchRequest(req) => if d.role == Role::Leader {
            Transition { state: d.with_fetch(m.source, req.fetch_offset, now), ..same }
        } else {
            same
        },
        _ => same,
    }
}

impl<S: StateMachine, L: Listener> EventLoop<S, L> {
    pub fn new(state: NodeState, config: RaftConfig, state_machine: S, listener: L) -> (r: Self)
        ensures
            r.state == state,
            r.config == config,
            r.state_machine == state_machine,
            r.listener == listener,
    {
        EventLoop { state, config, state_machine, listener }
    }

    /// The loop went through a transition: its state, what it returns, and
    /// what its listener heard.
    pub open spec fn went_through(
        before: Self,
        after: Self,
        t: Transition,
        step: Option<LoopStep>,
    ) -> bool {
        &&& after.state@ == t.state
        &&& after.config == before.config
        &&& after.state_machine == before.state_machine
        &&& if t.elected {
            before.listener.leader_change_step(
                t.state.node_id,
                t.state.current_term,
                &after.listener,
            )
        } else {
            after.listener == before.listener
        }
        &&& step matches Some(st) && st.publish@ == t.state.projection() && st.batch@ == t.actions
    }

    /// The timer that has run out at `now`, if any.
    pub fn due(&self, now: u64) -> (r: Option<DueTimer>)
        ensures
            r == due_timer(self.state@, now),
    {
        if self.state.role == Role::Leader {
            if now >= self.state.check_quorum_deadline {
                return Some(DueTimer::CheckQuorum);
            }
        } else if (self.state.role == Role::Follower || self.state.role == Role::Candidate)
            && now >= self.state.election_deadline {
            return Some(DueTimer::Election);
        }
        None
    }

    /// When to wake up without a message.
    pub fn next_deadline(&self) -> (d: u64)
        ensures
            d == wake_at(self.state@),
    {
        if self.state.role == Role::Leader {
            self.state.check_quorum_deadline
        } else {
            self.state.election_deadline
        }
    }

    /// Handle shutdown: tell the listener.
    pub fn handle_shutdown(&mut self)
        ensures
            old(self).listener.shutdown_step(&final(self).listener),
            final(self).state@ == old(self).state@,
            final(self).config == old(self).config,
            final(self).state_machine == old(self).state_machine,
    {
        self.listener.begin_shutdown();
    }

    /// Handle the quorum timer: verify that a majority of voters has sent a
    /// fetch within the check interval, which was set when this node became
    /// leader.
    pub fn handle_check_quorum(&mut self, now: u64, timeout: u64) -> (step: Option<LoopStep>)
        requires
            if old(self).state@.quorum_active(now, old(self).state.check_quorum_interval) {
                now + old(self).state.check_quorum_interval <= u64::MAX
            } else {
                now + timeout <= u64::MAX
            },
        ensures
            Self::went_through(
                *old(self),
                *final(self),
                quorum_checked(old(self).state@, now, timeout),
                step,
            ),
    {
        let interval: u64 = self.state.check_quorum_interval;
        let mut batch = IoActionBatch::new();
        if self.state.check_quorum(now, interval) {
            self.state.check_quorum_deadline = now + interval;
        } else {
            let preserved_voted_for = self.state.voted_for;
            let term = self.state.current_term;
            self.state.become_follower(term, None, now + timeout);
            self.state.voted_for = preserved_voted_for;
            batch.push(
                IoAction::PersistQuorumState(
                    QuorumState {
                        current_term: self.state.current_term,
                        voted_for: preserved_voted_for,
                        leader_id: None,
                        leader_epoch: Term(0),
                        cluster_id: self.state.cluster_id,
                    },
                ),
            );
        }
        assert(batch@ =~= quorum_checked(old(self).state@, now, timeout).actions);
        Some(LoopStep { publish: self.state.project(), batch })
    }

    /// Handle election timeout expiry. A node that is not a voter only waits
    /// again: nothing is published. `timeout` and `interval` are two random
    /// election timeouts: one until the next election, one between the quorum
    /// checks of a sole voter.
    pub fn handle_election_timeout(
        &mut self,
        now: u64,
        timeout: u64,
        interval: u64,
    ) -> (step: Option<LoopStep>)
        requires
            now + timeout <= u64::MAX,
            old(self).state@.is_voter() ==> old(self).state.current_term.0 < u64::MAX,
            old(self).state@.is_voter() && old(self).state@.voter_set.len() == 1 ==> now + interval
                <= u64::MAX && old(self).state.log_end_offset < u64::MAX,
        ensures
            if old(self).state@.is_voter() {
                Self::went_through(
                    *old(self),
                    *final(self),
                    timed_out(old(self).state@, now, timeout, interval),
                    step,
                )
            } else {
                &&& step is None
                &&& final(self).state@ == (NodeStateView {
                    election_deadline: (now + timeout) as u64,
                    ..old(self).state@
                })
                &&& final(self).config == old(self).config
                &&& final(self).state_machine == old(self).state_machine
                &&& final(self).listener == old(self).listener
            },
    {
        if !self.state.is_voter() {
            self.state.election_deadline = now + timeout;
            return None;
        }
        let mut batch = IoActionBatch::new();
        ElectionManager::start_election(&mut self.state, now + timeout, &mut batch);
        assert(batch@ =~= election_actions(old(self).state@, (now + timeout) as u64));
        if self.state.voter_count() == 1 {
            self.state.become_leader(now, interval);
            self.on_become_leader(&mut batch);
        }
        Some(LoopStep { publish: self.state.project(), batch })
    }

    /// Handle an incoming message.
    ///
    /// A message of another cluster is dropped. A higher term makes the node
    /// step down, except in a pre-vote, which never changes term or vote.
    /// Then the message is dispatched by its kind.
    pub fn handle_rpc(
        &mut self,
        envelope: RpcEnvelope,
        now: u64,
        timeout: u64,
    ) -> (step: Option<LoopStep>)
        requires
            now + timeout <= u64::MAX,
            envelope.cluster_id == old(self).state.cluster_id && received(
                old(self).state@,
                envelope@,
                now,
                timeout,
            ).elected ==> old(self).state.log_end_offset < u64::MAX,
        ensures
            if envelope.cluster_id == old(self).state.cluster_id {
                Self::went_through(
                    *old(self),
                    *final(self),
                    received(old(self).state@, envelope@, now, timeout),
                    step,
                )
            } else {
                &&& step is None
                &&& *final(self) == *old(self)
            },
    {
        if envelope.cluster_id != self.state.cluster_id {
            return None;
        }
        let deadline: u64 = now + timeout;
        let source = envelope.source;
        let mut batch = IoActionBatch::new();
        let is_pre_vote = match &envelope.payload {
            RpcPayload::VoteRequest(req) => req.is_pre_vote,
            RpcPayload::VoteResponse(resp) => resp.is_pre_vote,
            _ => false,
        };
        let effective_term = match &envelope.payload {
            RpcPayload::VoteRequest(req) => req.term,
            RpcPayload::VoteResponse(resp) => resp.term,
            RpcPayload::FetchResponse(resp) => resp.leader_epoch,
            RpcPayload::FetchRequest(_) => envelope.leader_epoch,
            RpcPayload::FetchSnapshotRequest(_) => envelope.leader_epoch,
            RpcPayload::FetchSnapshotResponse(_) => envelope.leader_epoch,
        };
        let down = if is_pre_vote {
            false
        } else {
            let sd = ElectionManager::maybe_step_down_on_higher_term(
                &mut self.state,
                effective_term,
                deadline,
            );
            if sd {
                batch.push(
                    IoAction::PersistQuorumState(
                        QuorumState {
                            current_term: self.state.current_term,
                            voted_for: None,
                            leader_id: None,
                            leader_epoch: Term(0),
                            cluster_id: self.state.cluster_id,
                        },
                    ),
                );
            }
            sd
        };
        let ghost d = self.state@;
        let ghost actions = batch@;
        proof {
            assert(message_term(envelope@) == (if is_pre_vote {
                None
            } else {
                Some(effective_term)
            }));
            if down {
                assert(actions =~= seq![
                    IoActionView::PersistQuorumState(
                        QuorumState {
                            current_term: d.current_term,
                            voted_for: None,
                            leader_id: None,
                            leader_epoch: Term(0),
                            cluster_id: d.cluster_id,
                        },
                    ),
                ]);
            }
        }
        match &envelope.payload {
            RpcPayload::VoteRequest(req) => {
                if req.is_pre_vote {
                    ElectionManager::handle_pre_vote_request(&self.state, req, &mut batch);
                } else {
                    ElectionManager::handle_vote_request(
                        &mut self.state,
                        req,
                        deadline,
                        &mut batch,
                    );
                }
            },
            RpcPayload::VoteResponse(resp) => {
                if resp.is_pre_vote {
                    if resp.vote_granted && resp.term == self.state.current_term {
                        self.state.pre_votes_received.insert(source);
                    }
                } else if !down && self.state.role == Role::Candidate && resp.vote_granted
                    && resp.term == self.state.current_term {
                    if self.state.is_in_voter_set(source) {
                        let has_majority = ElectionManager::record_vote(&mut self.state, source);
                        if has_majority {
                            self.state.become_leader(now, timeout);
                            self.on_become_leader(&mut batch);
                        }
                    }
                }
            },
            RpcPayload::FetchRequest(req) => {
                if self.state.role == Role::Leader {
                    self.state.record_fetch(source, req.fetch_offset, now);
                }
            },
            _ => {},
        }
        assert(batch@ =~= received(old(self).state@, envelope@, now, timeout).actions);
        Some(LoopStep { publish: self.state.project(), batch })
    }

    /// Called when this node has become leader: saves that, appends the first
    /// entry of the term and tells the listener.
    fn on_become_leader(&mut self, batch: &mut IoActionBatch)
        requires
            old(self).state.log_end_offset < u64::MAX,
        ensures
            final(self).state@ == with_leader_change(old(self).state@),
            final(self).config == old(self).config,
            final(self).state_machine == old(self).state_machine,
            old(self).listener.leader_change_step(
                old(self).state.node_id,
                old(self).state.current_term,
                &final(self).listener,
            ),
            final(batch)@ == old(batch)@.push(
                IoActionView::PersistQuorumState(
                    QuorumState {
                        current_term: old(self).state.current_term,
                        voted_for: old(self).state.voted_for,
                        leader_id: Some(old(self).state.node_id),
                        leader_epoch: old(self).state.current_term,
                        cluster_id: old(self).state.cluster_id,
                    },
                ),
            ).push(IoActionView::AppendLog(seq![leader_change_entry(old(self).state@)])),
    {
        batch.push(
            IoAction::PersistQuorumState(
                QuorumState {
                    current_term: self.state.current_term,
                    voted_for: self.state.voted_for,
                    leader_id: Some(self.state.node_id),
                    leader_epoch: self.state.current_term,
                    cluster_id: self.state.cluster_id,
                },
            ),
        );
        let _entry = ElectionManager::append_leader_change_message(&mut self.state, batch);
        ElectionManager::notify_leader_change(
            &mut self.listener,
            self.state.node_id,
            self.state.current_term,
        );
    }
}

/// No message and no timer takes a node back to an earlier term.
pub proof fn law_terms_never_decrease(
    s: NodeStateView,
    m: RpcEnvelopeView,
    now: u64,
    timeout: u64,
    interval: u64,
)
    ensures
        received(s, m, now, timeout).state.current_term.0 >= s.current_term.0,
        quorum_checked(s, now, timeout).state.current_term == s.current_term,
        s.current_term.0 < u64::MAX ==> timed_out(s, now, timeout, interval).state.current_term.0
            == s.current_term.0 + 1,
{
}

/// Within one term neither a message nor a quorum check changes a vote that
/// has been given.
pub proof fn law_votes_are_kept(s: NodeStateView, m: RpcEnvelopeView, now: u64, timeout: u64)
    ensures
        ({
            let after = received(s, m, now, timeout).state;
            after.current_term == s.current_term && s.voted_for is Some ==> after.voted_for
                == s.voted_for
        }),
        quorum_checked(s, now, timeout).state.voted_for == s.voted_for,
{
}

/// A pre-vote request leaves the state as it is, and a pre-vote response
/// changes neither term, nor vote, nor role.
pub proof fn law_pre_vote_changes_nothing(
    s: NodeStateView,
    m: RpcEnvelopeView,
    now: u64,
    timeout: u64,
)
    ensures
        m.payload matches RpcPayloadView::VoteRequest(req) && req.is_pre_vote ==> received(
            s,
            m,
            now,
            timeout,
        ).state == s,
        m.payload matches RpcPayloadView::VoteResponse(resp) && resp.is_pre_vote ==> {
            let after = received(s, m, now, timeout).state;
            &&& after.current_term == s.current_term
            &&& after.voted_for == s.voted_for
            &&& after.role == s.role
            &&& after.leader_id == s.leader_id
        },
{
}

/// A leader that loses its quorum keeps the vote of its term: whatever
/// request of that term comes next, it grants no other candidate.
pub proof fn law_deposed_leader_keeps_vote(
    s: NodeStateView,
    now: u64,
    timeout: u64,
    req: crate::rpc::VoteRequest,
    deadline: u64,
)
    requires
        s.voted_for == Some(s.node_id),
        !s.quorum_active(now, s.check_quorum_interval),
        req.term == s.current_term,
        req.candidate_id != s.node_id,
    ensures
        ({
            let after = quorum_checked(s, now, timeout).state;
            &&& after.role == Role::Follower
            &&& !crate::election::grants_vote(stepped_down(after, req.term, deadline), req)
        }),
{
}

/// A node becomes leader through a message only with the votes of a majority
/// of its voter set, in the term in which it is a candidate.
pub proof fn law_leader_has_majority(s: NodeStateView, m: RpcEnvelopeView, now: u64, timeout: u64)
    ensures
        received(s, m, now, timeout).elected ==> {
            &&& s.role == Role::Candidate
            &&& s.votes_received.insert(m.source.0).len() >= s.majority()
            &&& has_voter(s.voter_set, m.source)
            &&& received(s, m, now, timeout).state.current_term == s.current_term
        },
{
}

} // verus!
