use bytes::Bytes;

use xraft::app_record::{AppRecord, AppSnapshot};
use xraft::config::RaftConfig;
use xraft::consensus_state::Role;
use xraft::deferred_completion::DeferredCompletionQueue;
use xraft::error::XraftError;
use xraft::io_action::{IoAction, IoActionBatch};
use xraft::listener::Listener;
use xraft::log_entry::{EntryType, LogEntry};
use xraft::node_state::{NodeState, PendingMembershipChange};
use xraft::replication::{
    FetchResponseResult, FollowerEventLoop, ReplicationManager, SnapshotCoordinator,
};
use xraft::rpc::{
    DivergingEpoch, FetchResponse, FetchSnapshotRequest, RpcEnvelope, RpcPayload, SnapshotId,
};
use xraft::snapshot::SnapshotReader;
use xraft::traits::StateMachine;
use xraft::types::{ClusterId, NodeId, Offset, Term};
use xraft::voter::{VoterInfo, VotersRecord};

/// The time of all calls that do not depend on it, in milliseconds.
const NOW: u64 = 100_000;

/// The election timeout that a clock draws, in milliseconds.
const ELECTION_TIMEOUT: u64 = 200;

/// Minimal state machine for testing.
struct TestStateMachine {
    applied: Vec<(u64, AppRecord)>,
    fail_at_offset: Option<u64>,
}

impl TestStateMachine {
    fn new() -> Self {
        TestStateMachine {
            applied: Vec::new(),
            fail_at_offset: None,
        }
    }

    fn failing_at(offset: u64) -> Self {
        TestStateMachine {
            applied: Vec::new(),
            fail_at_offset: Some(offset),
        }
    }
}

impl StateMachine for TestStateMachine {
    fn apply(&mut self, offset: u64, record: &AppRecord) -> Result<(), XraftError> {
        if self.fail_at_offset == Some(offset) {
            return Err(XraftError::StateMachineApplyError(format!(
                "intentional failure at offset {offset}"
            )));
        }
        self.applied.push((offset, record.clone()));
        Ok(())
    }

    fn snapshot(&self) -> Result<AppSnapshot, XraftError> {
        Ok(AppSnapshot {
            data: Vec::new(),
        })
    }

    fn restore(&mut self, _snapshot: AppSnapshot) -> Result<(), XraftError> {
        Ok(())
    }
}

/// Minimal listener for testing.
struct TestListener {
    committed: Vec<Vec<(u64, AppRecord)>>,
    shutdown_called: bool,
    leader_changes: Vec<(NodeId, Term)>,
}

impl TestListener {
    fn new() -> Self {
        TestListener {
            committed: Vec::new(),
            shutdown_called: false,
            leader_changes: Vec::new(),
        }
    }
}

impl Listener for TestListener {
    fn handle_commit(&mut self, batch: &[(u64, AppRecord)]) {
        self.committed.push(batch.to_vec());
    }

    fn handle_load_snapshot(&mut self, _reader: SnapshotReader) {}

    fn handle_leader_change(&mut self, leader_id: NodeId, term: Term) {
        self.leader_changes.push((leader_id, term));
    }

    fn begin_shutdown(&mut self) {
        self.shutdown_called = true;
    }
}

/// Test snapshot coordinator that tracks calls.
struct TestSnapshotCoordinator {
    transfers_started: Vec<SnapshotId>,
    in_progress: bool,
}

impl TestSnapshotCoordinator {
    fn new() -> Self {
        Self {
            transfers_started: Vec::new(),
            in_progress: false,
        }
    }
}

impl SnapshotCoordinator for TestSnapshotCoordinator {
    fn begin_snapshot_transfer(
        &mut self,
        leader_id: NodeId,
        snapshot_id: &SnapshotId,
        state: &NodeState,
    ) -> IoActionBatch {
        self.transfers_started.push(*snapshot_id);
        self.in_progress = true;
        // Delegate to DefaultSnapshotCoordinator behavior for IoActions.
        let mut batch = IoActionBatch::new();
        let request = FetchSnapshotRequest {
            snapshot_id: *snapshot_id,
            position: 0,
            max_bytes: 1024 * 1024,
        };
        let envelope = RpcEnvelope {
            cluster_id: state.cluster_id,
            leader_epoch: state.current_term,
            source: state.node_id,
            payload: RpcPayload::FetchSnapshotRequest(request),
        };
        batch.push(IoAction::SendRpc(leader_id, envelope));
        batch
    }

    fn is_transfer_in_progress(&self) -> bool {
        self.in_progress
    }
}

fn make_entry(offset: u64, term: Term) -> LogEntry {
    LogEntry {
        offset,
        term,
        entry_type: EntryType::Command,
        payload: Bytes::from(format!("data-{offset}")),
    }
}

fn make_entries(start: u64, end: u64, term: Term) -> Vec<LogEntry> {
    (start..end).map(|o| make_entry(o, term)).collect()
}

fn make_follower_state(node_id: u64, leader_id: u64) -> NodeState {
    let mut state = NodeState::new(NodeId(node_id), ClusterId::default());
    state.role = Role::Follower;
    state.leader_id = Some(NodeId(leader_id));
    state.current_term = Term(1);
    state
}

fn make_fetch_response(
    entries: Vec<LogEntry>,
    high_watermark: u64,
) -> FetchResponse {
    FetchResponse {
        leader_id: NodeId(1),
        leader_epoch: Term(1),
        high_watermark,
        log_start_offset: 0,
        entries,
        diverging_epoch: None,
        snapshot_id: None,
    }
}

// Scenario: Normal replication
// Given leader N1 with entries 0-9,
// When follower N2 sends Fetch(offset=0),
// Then N2 receives entries 0-9 and appends them locally.
#[test]
fn test_normal_replication() {
    let config = RaftConfig::default();
    let mgr = ReplicationManager::new(&config);
    let mut state = make_follower_state(2, 1);
    let mut sm = TestStateMachine::new();
    let mut listener = TestListener::new();
    let mut queue = DeferredCompletionQueue::new();
    let mut sc = TestSnapshotCoordinator::new();

    // Follower starts with empty log.
    assert_eq!(state.log_end_offset, 0);

    // Simulate receiving entries 0-9 from leader.
    let entries = make_entries(0, 10, Term(1));
    let response = make_fetch_response(entries.clone(), 10);

    let result = mgr
        .handle_fetch_response(
            &mut state, &response, &mut sm, &mut listener, &mut queue,
            &mut sc, NOW, ELECTION_TIMEOUT,
        )
        .expect("should succeed");

    // Entries should be appended locally.
    assert_eq!(state.log_end_offset, 10);
    assert_eq!(state.log.len(), 10);
    assert_eq!(state.high_watermark, 10);
    assert!(!result.snapshot_transfer_initiated);

    // State machine should have applied all 10 entries.
    assert_eq!(sm.applied.len(), 10);

    // Listener should have been notified.
    assert_eq!(listener.committed.len(), 1);
    assert_eq!(listener.committed[0].len(), 10);

    // I/O batch should contain AppendLog.
    assert!(!result.io_batch.is_empty());

    // Verify IoAction ordering: AppendLog must come AFTER callbacks
    // (callbacks already executed above before io_batch was returned).
    assert!(result
        .io_batch
        .actions
        .iter()
        .any(|a| matches!(a, IoAction::AppendLog(_))));
}

// Scenario: Incremental fetch
// Given N2 has entries 0-4,
// When N2 sends Fetch(offset=5) and leader has entries 0-9,
// Then N2 receives entries 5-9 only.
#[test]
fn test_incremental_fetch() {
    let config = RaftConfig::default();
    let mgr = ReplicationManager::new(&config);
    let mut state = make_follower_state(2, 1);
    let mut sm = TestStateMachine::new();
    let mut listener = TestListener::new();
    let mut queue = DeferredCompletionQueue::new();
    let mut sc = TestSnapshotCoordinator::new();

    // Pre-populate follower with entries 0-4 (already committed).
    let initial_entries = make_entries(0, 5, Term(1));
    state.append_entries(&initial_entries);
    state.high_watermark = 5;

    assert_eq!(state.log_end_offset, 5);

    // Verify the fetch request would have offset=5.
    let (leader_id, envelope) = mgr.build_fetch_request(&state).unwrap();
    assert_eq!(leader_id, NodeId(1));
    if let RpcPayload::FetchRequest(req) = &envelope.payload {
        assert_eq!(req.fetch_offset, 5);
    } else {
        panic!("Expected FetchRequest payload");
    }

    // Simulate receiving entries 5-9 from leader.
    let new_entries = make_entries(5, 10, Term(1));
    let response = make_fetch_response(new_entries.clone(), 10);

    let _result = mgr
        .handle_fetch_response(
            &mut state, &response, &mut sm, &mut listener, &mut queue,
            &mut sc, NOW, ELECTION_TIMEOUT,
        )
        .expect("should succeed");

    // Should now have entries 0-9.
    assert_eq!(state.log_end_offset, 10);
    assert_eq!(state.log.len(), 10);
    assert_eq!(state.high_watermark, 10);

    // Only entries 5-9 should be applied (new commits).
    assert_eq!(sm.applied.len(), 5);
    assert_eq!(sm.applied[0].0, 5);
    assert_eq!(sm.applied[4].0, 9);
}

// Scenario: Election timer reset
// Given follower N2,
// When it receives a Fetch response (even empty),
// Then its election timer is reset (election_deadline updated).
#[test]
fn test_election_timer_reset_on_empty_response() {
    let config = RaftConfig::default();
    let mgr = ReplicationManager::new(&config);
    let mut state = make_follower_state(2, 1);
    let mut sm = TestStateMachine::new();
    let mut listener = TestListener::new();
    let mut queue = DeferredCompletionQueue::new();
    let mut sc = TestSnapshotCoordinator::new();

    // Set election deadline in the past to prove it gets reset.
    let old_deadline = NOW - 10_000;
    state.election_deadline = old_deadline;

    // Empty response (no entries, HW=0).
    let response = make_fetch_response(vec![], 0);
    let current = NOW;

    let _result = mgr
        .handle_fetch_response(
            &mut state, &response, &mut sm, &mut listener, &mut queue,
            &mut sc, current, ELECTION_TIMEOUT,
        )
        .expect("should succeed");

    // Election deadline should have been reset to the future.
    assert!(state.election_deadline > old_deadline);
    assert!(state.election_deadline >= current + config.election_timeout_min_ms);

    // No entries appended, no state machine calls.
    assert_eq!(state.log_end_offset, 0);
    assert!(sm.applied.is_empty());
    assert!(listener.committed.is_empty());
}

// Scenario: Fetch deadline updated on response
#[test]
fn test_fetch_deadline_updated_on_response() {
    let config = RaftConfig::default();
    let mgr = ReplicationManager::new(&config);
    let mut state = make_follower_state(2, 1);
    let mut sm = TestStateMachine::new();
    let mut listener = TestListener::new();
    let mut queue = DeferredCompletionQueue::new();
    let mut sc = TestSnapshotCoordinator::new();

    let _old_fetch_deadline = state.fetch_deadline;
    let current = NOW + 1_000;

    let response = make_fetch_response(vec![], 0);
    let _result = mgr
        .handle_fetch_response(
            &mut state, &response, &mut sm, &mut listener, &mut queue,
            &mut sc, current, ELECTION_TIMEOUT,
        )
        .expect("should succeed");

    // Fetch deadline should be advanced.
    assert_eq!(state.fetch_deadline, current + config.fetch_interval_ms);
}

// Scenario: on_fetch_tick updates fetch_deadline
#[test]
fn test_on_fetch_tick_updates_deadline() {
    let config = RaftConfig::default();
    let mgr = ReplicationManager::new(&config);
    let mut state = make_follower_state(2, 1);
    let current = NOW;

    let _batch = mgr.on_fetch_tick(&mut state, current);
    assert_eq!(state.fetch_deadline, current + config.fetch_interval_ms);
}

// Scenario: Divergence truncation
// Given N2 has entries diverging at offset 5,
// When Fetch response includes DivergingEpoch{epoch=2, end_offset=5},
// Then N2 truncates its log to offset 5 and re-fetches.
#[test]
fn test_divergence_truncation() {
    let config = RaftConfig::default();
    let mgr = ReplicationManager::new(&config);
    let mut state = make_follower_state(2, 1);
    let mut sm = TestStateMachine::new();
    let mut listener = TestListener::new();
    let mut queue = DeferredCompletionQueue::new();
    let mut sc = TestSnapshotCoordinator::new();

    // Pre-populate follower with entries 0-7 (some diverging after offset 5).
    // HW is at 5 - only entries 0-4 are committed; 5-7 are uncommitted.
    let initial_entries = make_entries(0, 8, Term(1));
    state.append_entries(&initial_entries);
    state.high_watermark = 5; // committed up to 5
    // Bump current_term so the response from term 2 is accepted.
    state.current_term = Term(2);
    assert_eq!(state.log_end_offset, 8);

    // Park completions for offsets 5, 6, 7 (uncommitted entries that will
    // be truncated - their completions must be failed/cleaned up).
    let (tx5, mut rx5) = tokio::sync::oneshot::channel();
    let (tx6, mut rx6) = tokio::sync::oneshot::channel();
    let (tx7, mut rx7) = tokio::sync::oneshot::channel();
    queue.park(5, tx5);
    queue.park(6, tx6);
    queue.park(7, tx7);

    // Response indicates divergence at epoch 2, truncate to offset 5.
    // end_offset=5 is == HW, so this is safe (only uncommitted entries truncated).
    let response = FetchResponse {
        leader_id: NodeId(1),
        leader_epoch: Term(2),
        high_watermark: 5,
        log_start_offset: 0,
        entries: vec![],
        diverging_epoch: Some(DivergingEpoch {
            epoch: Term(2),
            end_offset: 5,
        }),
        snapshot_id: None,
    };

    let result = mgr
        .handle_fetch_response(
            &mut state, &response, &mut sm, &mut listener, &mut queue,
            &mut sc, NOW, ELECTION_TIMEOUT,
        )
        .expect("should succeed");

    // Log should be truncated to offset 5.
    assert_eq!(state.log_end_offset, 5);
    assert_eq!(state.log.len(), 5);

    // HW must NOT decrease - it stays at 5.
    assert_eq!(state.high_watermark, 5);

    // Pending completions for truncated offsets should be failed.
    assert!(rx5.try_recv().is_err(), "offset 5 completion should be failed");
    assert!(rx6.try_recv().is_err(), "offset 6 completion should be failed");
    assert!(rx7.try_recv().is_err(), "offset 7 completion should be failed");
    assert_eq!(queue.len(), 0, "all truncated completions should be cleaned up");

    // I/O batch should contain TruncateSuffix and a re-fetch SendRpc.
    let actions = &result.io_batch.actions;
    assert!(actions
        .iter()
        .any(|a| matches!(a, IoAction::TruncateSuffix(5))));
    assert!(actions
        .iter()
        .any(|a| matches!(a, IoAction::SendRpc(_, _))));

    // No state machine applies during truncation.
    assert!(sm.applied.is_empty());
}

// Leader-not-known state
// If no leader is known, do not send Fetch (wait for election).
#[test]
fn test_no_fetch_without_leader() {
    let config = RaftConfig::default();
    let mgr = ReplicationManager::new(&config);
    let mut state = NodeState::new(NodeId(2), ClusterId::default());
    state.role = Role::Follower;
    state.leader_id = None; // No leader known.

    // Should not build a fetch request.
    assert!(mgr.build_fetch_request(&state).is_none());

    // on_fetch_tick should produce an empty batch.
    let batch = mgr.on_fetch_tick(&mut state, NOW);
    assert!(batch.is_empty());
}

// Non-follower should not send Fetch
#[test]
fn test_no_fetch_from_non_follower() {
    let config = RaftConfig::default();
    let mgr = ReplicationManager::new(&config);
    let mut state = NodeState::new(NodeId(1), ClusterId::default());
    state.role = Role::Leader;
    state.leader_id = Some(NodeId(1));

    assert!(mgr.build_fetch_request(&state).is_none());
}

// Snapshot ID in response delegates to SnapshotCoordinator
#[test]
fn test_snapshot_id_delegates_to_coordinator() {
    let config = RaftConfig::default();
    let mgr = ReplicationManager::new(&config);
    let mut state = make_follower_state(2, 1);
    let mut sm = TestStateMachine::new();
    let mut listener = TestListener::new();
    let mut queue = DeferredCompletionQueue::new();
    let mut sc = TestSnapshotCoordinator::new();

    let response = FetchResponse {
        leader_id: NodeId(1),
        leader_epoch: Term(1),
        high_watermark: 100,
        log_start_offset: 50,
        entries: vec![],
        diverging_epoch: None,
        snapshot_id: Some(SnapshotId {
            end_offset: 50,
            epoch: Term(1),
        }),
    };

    let result = mgr
        .handle_fetch_response(
            &mut state, &response, &mut sm, &mut listener, &mut queue,
            &mut sc, NOW, ELECTION_TIMEOUT,
        )
        .expect("should succeed");

    assert!(result.snapshot_transfer_initiated);
    // Coordinator should have been called.
    assert_eq!(sc.transfers_started.len(), 1);
    assert_eq!(sc.transfers_started[0].end_offset, 50);
    assert_eq!(sc.transfers_started[0].epoch, Term(1));
    assert!(sc.is_transfer_in_progress());

    // I/O batch should contain a FetchSnapshotRequest SendRpc.
    assert!(result
        .io_batch
        .actions
        .iter()
        .any(|a| matches!(a, IoAction::SendRpc(_, _))));
}

// HW advancement with mixed entry types
// Control records (LeaderChangeMessage, VotersRecord) are NOT applied
// to state machine, and NOT included in listener commit batch.
// VotersRecord IS processed internally for bookkeeping.
#[test]
fn test_commit_processes_control_records_internally() {
    let config = RaftConfig::default();
    let mgr = ReplicationManager::new(&config);
    let mut state = make_follower_state(2, 1);
    let mut sm = TestStateMachine::new();
    let mut listener = TestListener::new();
    let mut queue = DeferredCompletionQueue::new();
    let mut sc = TestSnapshotCoordinator::new();

    let voters_record = VotersRecord {
        version: 1,
        voters: vec![
            VoterInfo::new(1, "127.0.0.1:5001"),
            VoterInfo::new(2, "127.0.0.1:5002"),
            VoterInfo::new(3, "127.0.0.1:5003"),
        ],
    };

    let entries = vec![
        make_entry(0, Term(1)),                                    // Command
        LogEntry::leader_change(1, Term(1)),                       // Control
        make_entry(2, Term(1)),                                    // Command
        LogEntry::voters_record(Offset(3), Term(1), &voters_record),       // Control
    ];

    let response = make_fetch_response(entries, 4);

    mgr.handle_fetch_response(
        &mut state, &response, &mut sm, &mut listener, &mut queue,
        &mut sc, NOW, ELECTION_TIMEOUT,
    )
    .expect("should succeed");

    // Only 2 Command entries should be applied to state machine.
    assert_eq!(sm.applied.len(), 2);
    assert_eq!(sm.applied[0].0, 0);
    assert_eq!(sm.applied[1].0, 2);

    // Listener should get 2 app records (not the control records).
    assert_eq!(listener.committed.len(), 1);
    assert_eq!(listener.committed[0].len(), 2);

    // VotersRecord should have been processed internally - voter_set updated.
    assert_eq!(state.voter_set.len(), 3);
    assert_eq!(state.voter_set[0].node_id, NodeId(1));
    assert_eq!(state.voter_set[1].node_id, NodeId(2));
    assert_eq!(state.voter_set[2].node_id, NodeId(3));
}

// HW is min(leader_HW, local_log_end_offset)
#[test]
fn test_hw_capped_at_local_log_end() {
    let config = RaftConfig::default();
    let mgr = ReplicationManager::new(&config);
    let mut state = make_follower_state(2, 1);
    let mut sm = TestStateMachine::new();
    let mut listener = TestListener::new();
    let mut queue = DeferredCompletionQueue::new();
    let mut sc = TestSnapshotCoordinator::new();

    // Receive 5 entries but leader claims HW=100.
    let entries = make_entries(0, 5, Term(1));
    let response = FetchResponse {
        leader_id: NodeId(1),
        leader_epoch: Term(1),
        high_watermark: 100, // Higher than our log end.
        log_start_offset: 0,
        entries,
        diverging_epoch: None,
        snapshot_id: None,
    };

    mgr.handle_fetch_response(
        &mut state, &response, &mut sm, &mut listener, &mut queue,
        &mut sc, NOW, ELECTION_TIMEOUT,
    )
    .expect("should succeed");

    // HW should be capped at log_end_offset (5), not leader's HW (100).
    assert_eq!(state.high_watermark, 5);
    assert_eq!(state.log_end_offset, 5);
}

// Deferred completions fire on HW advance
#[test]
fn test_deferred_completions_fire() {
    let config = RaftConfig::default();
    let mgr = ReplicationManager::new(&config);
    let mut state = make_follower_state(2, 1);
    let mut sm = TestStateMachine::new();
    let mut listener = TestListener::new();
    let mut queue = DeferredCompletionQueue::new();
    let mut sc = TestSnapshotCoordinator::new();

    // Park completions for offsets 0, 1, 2.
    let (tx0, mut rx0) = tokio::sync::oneshot::channel();
    let (tx1, mut rx1) = tokio::sync::oneshot::channel();
    let (tx2, mut rx2) = tokio::sync::oneshot::channel();
    queue.park(0, tx0);
    queue.park(1, tx1);
    queue.park(2, tx2);

    // Receive entries 0-2 with HW=2 (offsets 0,1 are committed).
    let entries = make_entries(0, 3, Term(1));
    let response = make_fetch_response(entries, 2);

    mgr.handle_fetch_response(
        &mut state, &response, &mut sm, &mut listener, &mut queue,
        &mut sc, NOW, ELECTION_TIMEOUT,
    )
    .expect("should succeed");

    // Offsets 0 and 1 should be completed (< HW=2).
    assert_eq!(rx0.try_recv().unwrap(), 0);
    assert_eq!(rx1.try_recv().unwrap(), 1);

    // Offset 2 should still be pending (not < HW=2).
    assert!(rx2.try_recv().is_err());
    assert_eq!(queue.len(), 1);
}

// StateMachine::apply error halts node (crash-stop)
#[test]
fn test_state_machine_apply_error_halts() {
    let config = RaftConfig::default();
    let mgr = ReplicationManager::new(&config);
    let mut state = make_follower_state(2, 1);
    let mut sm = TestStateMachine::failing_at(2); // Fail at offset 2.
    let mut listener = TestListener::new();
    let mut queue = DeferredCompletionQueue::new();
    let mut sc = TestSnapshotCoordinator::new();

    let entries = make_entries(0, 5, Term(1));
    let response = make_fetch_response(entries, 5);

    let result = mgr.handle_fetch_response(
        &mut state, &response, &mut sm, &mut listener, &mut queue,
        &mut sc, NOW, ELECTION_TIMEOUT,
    );

    // Should return an error (crash-stop semantics).
    assert!(result.is_err());
    match result.unwrap_err() {
        XraftError::StateMachineApplyError(msg) => {
            assert!(msg.contains("offset 2"), "error should mention offset: {msg}");
            assert!(msg.contains("halting"), "error should mention halting: {msg}");
        }
        other => panic!("expected StateMachineApplyError, got: {other:?}"),
    }

    // Listener::begin_shutdown must have been called before error propagation.
    assert!(listener.shutdown_called, "begin_shutdown should be called on apply error");

    // Only offsets 0 and 1 should have been applied before the failure.
    assert_eq!(sm.applied.len(), 2);
    assert_eq!(sm.applied[0].0, 0);
    assert_eq!(sm.applied[1].0, 1);
}

// Response validation: stale term rejected
#[test]
fn test_stale_term_rejected() {
    let config = RaftConfig::default();
    let mgr = ReplicationManager::new(&config);
    let mut state = make_follower_state(2, 1);
    state.current_term = Term(5);
    let mut sm = TestStateMachine::new();
    let mut listener = TestListener::new();
    let mut queue = DeferredCompletionQueue::new();
    let mut sc = TestSnapshotCoordinator::new();

    let response = FetchResponse {
        leader_id: NodeId(1),
        leader_epoch: Term(3), // Stale term.
        high_watermark: 0,
        log_start_offset: 0,
        entries: vec![],
        diverging_epoch: None,
        snapshot_id: None,
    };

    let result = mgr.handle_fetch_response(
        &mut state, &response, &mut sm, &mut listener, &mut queue,
        &mut sc, NOW, ELECTION_TIMEOUT,
    );

    assert!(result.is_err());
    assert!(matches!(
        result.unwrap_err(),
        XraftError::InvalidResponse(_)
    ));
}

// Response validation: wrong leader rejected
#[test]
fn test_wrong_leader_rejected() {
    let config = RaftConfig::default();
    let mgr = ReplicationManager::new(&config);
    let mut state = make_follower_state(2, 1); // Known leader is N1.
    let mut sm = TestStateMachine::new();
    let mut listener = TestListener::new();
    let mut queue = DeferredCompletionQueue::new();
    let mut sc = TestSnapshotCoordinator::new();

    let response = FetchResponse {
        leader_id: NodeId(3), // Wrong leader.
        leader_epoch: Term(1),
        high_watermark: 0,
        log_start_offset: 0,
        entries: vec![],
        diverging_epoch: None,
        snapshot_id: None,
    };

    let result = mgr.handle_fetch_response(
        &mut state, &response, &mut sm, &mut listener, &mut queue,
        &mut sc, NOW, ELECTION_TIMEOUT,
    );

    assert!(result.is_err());
    assert!(matches!(
        result.unwrap_err(),
        XraftError::InvalidResponse(_)
    ));
}

// Invalid entry offset does not panic
#[test]
fn test_invalid_entry_offset_returns_error() {
    let config = RaftConfig::default();
    let mgr = ReplicationManager::new(&config);
    let mut state = make_follower_state(2, 1);
    let mut sm = TestStateMachine::new();
    let mut listener = TestListener::new();
    let mut queue = DeferredCompletionQueue::new();
    let mut sc = TestSnapshotCoordinator::new();

    // Entry starts at offset 5 but follower's log_end_offset is 0.
    let entries = make_entries(5, 8, Term(1));
    let response = make_fetch_response(entries, 8);

    let result = mgr.handle_fetch_response(
        &mut state, &response, &mut sm, &mut listener, &mut queue,
        &mut sc, NOW, ELECTION_TIMEOUT,
    );

    assert!(result.is_err());
    assert!(matches!(
        result.unwrap_err(),
        XraftError::InvalidResponse(_)
    ));

    // State should be unchanged.
    assert_eq!(state.log_end_offset, 0);
}

// Non-contiguous entries return error
#[test]
fn test_non_contiguous_entries_returns_error() {
    let config = RaftConfig::default();
    let mgr = ReplicationManager::new(&config);
    let mut state = make_follower_state(2, 1);
    let mut sm = TestStateMachine::new();
    let mut listener = TestListener::new();
    let mut queue = DeferredCompletionQueue::new();
    let mut sc = TestSnapshotCoordinator::new();

    // Gap: offset 0, then offset 2 (missing 1).
    let entries = vec![make_entry(0, Term(1)), make_entry(2, Term(1))];
    let response = make_fetch_response(entries, 3);

    let result = mgr.handle_fetch_response(
        &mut state, &response, &mut sm, &mut listener, &mut queue,
        &mut sc, NOW, ELECTION_TIMEOUT,
    );

    assert!(result.is_err());
    assert!(matches!(
        result.unwrap_err(),
        XraftError::InvalidResponse(_)
    ));
}

// IoAction::AppendLog is produced AFTER callbacks
// Verify ordering: state mutation + callbacks happen before IoActions.
#[test]
fn test_append_log_io_action_after_callbacks() {
    let config = RaftConfig::default();
    let mgr = ReplicationManager::new(&config);
    let mut state = make_follower_state(2, 1);
    let mut sm = TestStateMachine::new();
    let mut listener = TestListener::new();
    let mut queue = DeferredCompletionQueue::new();
    let mut sc = TestSnapshotCoordinator::new();

    let entries = make_entries(0, 3, Term(1));
    let response = make_fetch_response(entries, 3);

    let result = mgr
        .handle_fetch_response(
            &mut state, &response, &mut sm, &mut listener, &mut queue,
            &mut sc, NOW, ELECTION_TIMEOUT,
        )
        .expect("should succeed");

    // Callbacks were invoked (state machine applied, listener notified)
    // BEFORE the FetchResponseResult is returned, which means before
    // any IoAction could be dispatched.
    assert_eq!(sm.applied.len(), 3);
    assert_eq!(listener.committed.len(), 1);

    // IoAction::AppendLog is in the batch (produced after callbacks).
    assert!(result
        .io_batch
        .actions
        .iter()
        .any(|a| matches!(a, IoAction::AppendLog(_))));
}

// poll_fetch integrates with EventLoop/Clock
#[test]
fn test_poll_fetch_fires_when_deadline_elapsed() {
    let config = RaftConfig::default();
    let mgr = ReplicationManager::new(&config);
    let mut state = make_follower_state(2, 1);

    // Set fetch_deadline in the past.
    let past = NOW - 1_000;
    state.fetch_deadline = past;

    let current = NOW;
    let result = mgr.poll_fetch(&mut state, current);
    assert!(result.is_some(), "poll_fetch should fire when deadline elapsed");
    let batch = result.unwrap();
    assert!(!batch.is_empty(), "should produce a SendRpc action");

    // Fetch deadline should have advanced.
    assert_eq!(state.fetch_deadline, current + config.fetch_interval_ms);
}

#[test]
fn test_poll_fetch_does_not_fire_before_deadline() {
    let config = RaftConfig::default();
    let mgr = ReplicationManager::new(&config);
    let mut state = make_follower_state(2, 1);

    // Set fetch_deadline in the future.
    let future = NOW + 10_000;
    state.fetch_deadline = future;

    let result = mgr.poll_fetch(&mut state, NOW);
    assert!(result.is_none(), "poll_fetch should not fire before deadline");
}

#[test]
fn test_poll_fetch_skipped_for_non_follower() {
    let config = RaftConfig::default();
    let mgr = ReplicationManager::new(&config);
    let mut state = make_follower_state(2, 1);
    state.role = Role::Candidate;
    state.fetch_deadline = NOW - 1_000;

    let result = mgr.poll_fetch(&mut state, NOW);
    assert!(result.is_none(), "non-follower should not poll fetch");
}

#[test]
fn test_time_until_fetch() {
    let config = RaftConfig::default();
    let mgr = ReplicationManager::new(&config);
    let mut state = make_follower_state(2, 1);

    let now = NOW;
    state.fetch_deadline = now + 100;

    let dur = mgr.time_until_fetch(&state, now);
    assert!(dur <= 100);
    assert!(dur > 0);

    // When deadline is in the past, returns ZERO.
    state.fetch_deadline = now - 1_000;
    let dur = mgr.time_until_fetch(&state, now);
    assert_eq!(dur, 0);
}

// LeaderChangeMessage updates leader-epoch checkpoint
#[test]
fn test_leader_change_message_updates_epoch_checkpoint() {
    let config = RaftConfig::default();
    let mgr = ReplicationManager::new(&config);
    let mut state = make_follower_state(2, 1);
    let mut sm = TestStateMachine::new();
    let mut listener = TestListener::new();
    let mut queue = DeferredCompletionQueue::new();
    let mut sc = TestSnapshotCoordinator::new();

    // Entries: command at 0, LeaderChangeMessage at 1 (term 1),
    // command at 2, LeaderChangeMessage at 3 (term 2).
    let entries = vec![
        make_entry(0, Term(1)),
        LogEntry::leader_change(1, Term(1)),
        make_entry(2, Term(1)),
        LogEntry::leader_change(3, Term(2)),
    ];

    // Update state term to accept the response.
    state.current_term = Term(2);
    let response = FetchResponse {
        leader_id: NodeId(1),
        leader_epoch: Term(2),
        high_watermark: 4,
        log_start_offset: 0,
        entries,
        diverging_epoch: None,
        snapshot_id: None,
    };

    mgr.handle_fetch_response(
        &mut state, &response, &mut sm, &mut listener, &mut queue,
        &mut sc, NOW, ELECTION_TIMEOUT,
    )
    .expect("should succeed");

    // Leader-epoch checkpoint should have two entries.
    assert_eq!(state.leader_epoch_checkpoint.len(), 2);
    assert_eq!(state.leader_epoch_checkpoint[&1], 1);
    assert_eq!(state.leader_epoch_checkpoint[&2], 3);
}

// VotersRecord deserialization error surfaces
#[test]
fn test_voters_record_deserialization_error_surfaces() {
    let config = RaftConfig::default();
    let mgr = ReplicationManager::new(&config);
    let mut state = make_follower_state(2, 1);
    let mut sm = TestStateMachine::new();
    let mut listener = TestListener::new();
    let mut queue = DeferredCompletionQueue::new();
    let mut sc = TestSnapshotCoordinator::new();

    // Craft a VotersRecord entry with garbage payload.
    let bad_voters_entry = LogEntry {
        offset: 0,
        term: Term(1),
        entry_type: EntryType::VotersRecord,
        payload: Bytes::from("not-valid-bincode"),
    };

    let response = make_fetch_response(vec![bad_voters_entry], 1);

    let result = mgr.handle_fetch_response(
        &mut state, &response, &mut sm, &mut listener, &mut queue,
        &mut sc, NOW, ELECTION_TIMEOUT,
    );

    assert!(result.is_err());
    match result.unwrap_err() {
        XraftError::InvalidResponse(msg) => {
            assert!(
                msg.contains("VotersRecord"),
                "error should mention VotersRecord: {msg}"
            );
        }
        other => panic!("expected InvalidResponse, got: {other:?}"),
    }
}

// Divergence truncation clears pending state and fails completions
#[test]
fn test_divergence_truncation_clears_state_and_fails_completions() {
    let config = RaftConfig::default();
    let mgr = ReplicationManager::new(&config);
    let mut state = make_follower_state(2, 1);
    let mut sm = TestStateMachine::new();
    let mut listener = TestListener::new();
    let mut queue = DeferredCompletionQueue::new();
    let mut sc = TestSnapshotCoordinator::new();

    // Pre-populate follower with entries 0-7, HW=5 (entries 5-7 uncommitted).
    let initial_entries = make_entries(0, 8, Term(1));
    state.append_entries(&initial_entries);
    state.high_watermark = 5;
    state.current_term = Term(2);

    // Set pending membership change at offset 6 (beyond truncation point).
    state.pending_membership_change = Some(PendingMembershipChange {
        offset: 6,
        voters: vec![],
    });

    // Set leader-epoch checkpoint entries.
    state.leader_epoch_checkpoint.insert(1, 0);
    state.leader_epoch_checkpoint.insert(2, 6);  // Beyond truncation

    // Park completions for uncommitted offsets.
    let (tx5, mut rx5) = tokio::sync::oneshot::channel();
    let (tx6, mut rx6) = tokio::sync::oneshot::channel();
    queue.park(5, tx5);
    queue.park(6, tx6);

    // Truncate to offset 5 (== HW, safe).
    let response = FetchResponse {
        leader_id: NodeId(1),
        leader_epoch: Term(2),
        high_watermark: 5,
        log_start_offset: 0,
        entries: vec![],
        diverging_epoch: Some(DivergingEpoch {
            epoch: Term(2),
            end_offset: 5,
        }),
        snapshot_id: None,
    };

    let _result = mgr
        .handle_fetch_response(
            &mut state, &response, &mut sm, &mut listener, &mut queue,
            &mut sc, NOW, ELECTION_TIMEOUT,
        )
        .expect("should succeed");

    // Log truncated to offset 5.
    assert_eq!(state.log_end_offset, 5);

    // HW stays at 5 (never decreases).
    assert_eq!(state.high_watermark, 5);

    // Pending membership change at offset 6 should be cleared.
    assert!(state.pending_membership_change.is_none());

    // Leader-epoch checkpoint: entry at offset 6 (Term(2)) should be removed.
    assert_eq!(state.leader_epoch_checkpoint.len(), 1);
    assert!(state.leader_epoch_checkpoint.contains_key(&1));
    assert!(!state.leader_epoch_checkpoint.contains_key(&2));

    // Pending completions for offsets 5, 6 should be failed.
    assert!(rx5.try_recv().is_err());
    assert!(rx6.try_recv().is_err());
    assert_eq!(queue.len(), 0);
}

// Divergence below HW is a safety violation
#[test]
fn test_divergence_below_hw_is_safety_violation() {
    let config = RaftConfig::default();
    let mgr = ReplicationManager::new(&config);
    let mut state = make_follower_state(2, 1);
    let mut sm = TestStateMachine::new();
    let mut listener = TestListener::new();
    let mut queue = DeferredCompletionQueue::new();
    let mut sc = TestSnapshotCoordinator::new();

    // Entries 0-7, HW=7 (all committed).
    let initial_entries = make_entries(0, 8, Term(1));
    state.append_entries(&initial_entries);
    state.high_watermark = 7;
    state.current_term = Term(2);

    // Truncation at offset 5 is BELOW HW=7 - safety violation.
    let response = FetchResponse {
        leader_id: NodeId(1),
        leader_epoch: Term(2),
        high_watermark: 5,
        log_start_offset: 0,
        entries: vec![],
        diverging_epoch: Some(DivergingEpoch {
            epoch: Term(2),
            end_offset: 5,
        }),
        snapshot_id: None,
    };

    let result = mgr.handle_fetch_response(
        &mut state, &response, &mut sm, &mut listener, &mut queue,
        &mut sc, NOW, ELECTION_TIMEOUT,
    );

    assert!(result.is_err());
    match result.unwrap_err() {
        XraftError::InvalidResponse(msg) => {
            assert!(msg.contains("safety violation"), "should mention safety: {msg}");
        }
        other => panic!("expected InvalidResponse, got: {other:?}"),
    }

    // State should be unchanged.
    assert_eq!(state.log_end_offset, 8);
    assert_eq!(state.high_watermark, 7);
}

// Listener::handle_commit called even with empty app-record batch
#[test]
fn test_handle_commit_called_for_control_records_only() {
    let config = RaftConfig::default();
    let mgr = ReplicationManager::new(&config);
    let mut state = make_follower_state(2, 1);
    let mut sm = TestStateMachine::new();
    let mut listener = TestListener::new();
    let mut queue = DeferredCompletionQueue::new();
    let mut sc = TestSnapshotCoordinator::new();

    // Only control records - no Command entries.
    let entries = vec![
        LogEntry::leader_change(0, Term(1)),
        LogEntry::leader_change(1, Term(1)),
    ];

    let response = make_fetch_response(entries, 2);

    mgr.handle_fetch_response(
        &mut state, &response, &mut sm, &mut listener, &mut queue,
        &mut sc, NOW, ELECTION_TIMEOUT,
    )
    .expect("should succeed");

    // No state machine applies (no Command entries).
    assert!(sm.applied.is_empty());

    // Listener::handle_commit MUST still be called once (with empty batch)
    // per the three-phase notification - the listener phase runs once
    // when HW advances.
    assert_eq!(
        listener.committed.len(),
        1,
        "handle_commit must be called even with empty app-record batch"
    );
    assert!(
        listener.committed[0].is_empty(),
        "batch should be empty (only control records)"
    );
}

// Integrated follower behavior tests - simulate the full
// EventLoop tick cycle (poll_fetch -> receive response -> process)
// rather than testing ReplicationManager methods in isolation.

/// Simulates a minimal EventLoop cycle for the follower:
/// 1. poll_fetch fires a FetchRequest
/// 2. Response comes back from leader
/// 3. handle_fetch_response processes it
/// Returns (IoActionBatch from poll, FetchResponseResult from response).
fn run_follower_cycle(
    mgr: &ReplicationManager,
    state: &mut NodeState,
    response: &FetchResponse,
    sm: &mut TestStateMachine,
    listener: &mut TestListener,
    queue: &mut DeferredCompletionQueue,
    sc: &mut TestSnapshotCoordinator,
) -> (Option<IoActionBatch>, Result<FetchResponseResult, XraftError>) {
    // Step 1: EventLoop checks fetch deadline (simulating Clock integration).
    let fetch_batch = mgr.poll_fetch(state, NOW);

    // Step 2: Process response (simulating EventLoop dispatch).
    let result = mgr.handle_fetch_response(
        state, response, sm, listener, queue, sc, NOW, ELECTION_TIMEOUT,
    );

    (fetch_batch, result)
}

// Integrated: Full follower cycle from fetch to commit
#[test]
fn test_integrated_follower_full_cycle() {
    let config = RaftConfig::default();
    let mgr = ReplicationManager::new(&config);
    let mut state = make_follower_state(2, 1);
    let mut sm = TestStateMachine::new();
    let mut listener = TestListener::new();
    let mut queue = DeferredCompletionQueue::new();
    let mut sc = TestSnapshotCoordinator::new();

    // Set fetch_deadline in the past so poll_fetch fires.
    state.fetch_deadline = NOW - 1_000;

    let entries = make_entries(0, 5, Term(1));
    let response = make_fetch_response(entries, 5);

    let (fetch_batch, result) =
        run_follower_cycle(&mgr, &mut state, &response, &mut sm, &mut listener, &mut queue, &mut sc);

    // poll_fetch should have produced a SendRpc.
    assert!(fetch_batch.is_some());
    let fb = fetch_batch.unwrap();
    assert!(fb.actions.iter().any(|a| matches!(a, IoAction::SendRpc(_, _))));

    // Response processing should succeed.
    let result = result.expect("should succeed");
    assert!(!result.snapshot_transfer_initiated);

    // Entries appended, HW advanced, SM applied, listener notified.
    assert_eq!(state.log_end_offset, 5);
    assert_eq!(state.high_watermark, 5);
    assert_eq!(sm.applied.len(), 5);
    assert_eq!(listener.committed.len(), 1);
    assert_eq!(listener.committed[0].len(), 5);

    // Fetch deadline advanced.
    assert!(state.fetch_deadline > NOW - 2_000);
}

// Integrated: Follower divergence -> truncation -> re-fetch -> catch up
#[test]
fn test_integrated_follower_divergence_recovery() {
    let config = RaftConfig::default();
    let mgr = ReplicationManager::new(&config);
    let mut state = make_follower_state(2, 1);
    let mut sm = TestStateMachine::new();
    let mut listener = TestListener::new();
    let mut queue = DeferredCompletionQueue::new();
    let mut sc = TestSnapshotCoordinator::new();

    // Phase 1: Follower has entries 0-7 in term 1.
    let initial = make_entries(0, 8, Term(1));
    state.append_entries(&initial);
    state.high_watermark = 5;
    state.current_term = Term(2);
    state.fetch_deadline = NOW - 1_000;

    // Phase 2: Leader sends divergence - truncate to offset 5.
    let diverge_response = FetchResponse {
        leader_id: NodeId(1),
        leader_epoch: Term(2),
        high_watermark: 5,
        log_start_offset: 0,
        entries: vec![],
        diverging_epoch: Some(DivergingEpoch {
            epoch: Term(2),
            end_offset: 5,
        }),
        snapshot_id: None,
    };

    let (_, result) = run_follower_cycle(
        &mgr, &mut state, &diverge_response,
        &mut sm, &mut listener, &mut queue, &mut sc,
    );
    result.expect("truncation should succeed");
    assert_eq!(state.log_end_offset, 5);
    assert_eq!(state.high_watermark, 5);

    // Phase 3: Re-fetch brings new entries 5-9 from new term.
    state.fetch_deadline = NOW - 1_000;
    let new_entries = make_entries(5, 10, Term(2));
    let catch_up_response = FetchResponse {
        leader_id: NodeId(1),
        leader_epoch: Term(2),
        high_watermark: 10,
        log_start_offset: 0,
        entries: new_entries,
        diverging_epoch: None,
        snapshot_id: None,
    };

    let (_, result) = run_follower_cycle(
        &mgr, &mut state, &catch_up_response,
        &mut sm, &mut listener, &mut queue, &mut sc,
    );
    result.expect("catch-up should succeed");

    assert_eq!(state.log_end_offset, 10);
    assert_eq!(state.high_watermark, 10);
    // Entries 5-9 committed via SM.
    assert_eq!(sm.applied.len(), 5);
}

// Integrated: Follower no-leader -> poll_fetch returns None
#[test]
fn test_integrated_follower_no_leader_no_fetch() {
    let config = RaftConfig::default();
    let mgr = ReplicationManager::new(&config);
    let mut state = NodeState::new(NodeId(2), ClusterId::default());
    state.role = Role::Follower;
    state.leader_id = None;
    state.fetch_deadline = NOW - 1_000;

    let result = mgr.poll_fetch(&mut state, NOW);
    // poll_fetch fires (deadline elapsed + follower) but produces empty batch.
    assert!(result.is_some());
    assert!(result.unwrap().is_empty(), "no SendRpc without known leader");
}

// Integrated: Follower snapshot delegation cycle
#[test]
fn test_integrated_follower_snapshot_cycle() {
    let config = RaftConfig::default();
    let mgr = ReplicationManager::new(&config);
    let mut state = make_follower_state(2, 1);
    let mut sm = TestStateMachine::new();
    let mut listener = TestListener::new();
    let mut queue = DeferredCompletionQueue::new();
    let mut sc = TestSnapshotCoordinator::new();

    state.fetch_deadline = NOW - 1_000;

    let response = FetchResponse {
        leader_id: NodeId(1),
        leader_epoch: Term(1),
        high_watermark: 100,
        log_start_offset: 50,
        entries: vec![],
        diverging_epoch: None,
        snapshot_id: Some(SnapshotId {
            end_offset: 50,
            epoch: Term(1),
        }),
    };

    let (fetch_batch, result) = run_follower_cycle(
        &mgr, &mut state, &response,
        &mut sm, &mut listener, &mut queue, &mut sc,
    );

    // poll_fetch should have fired.
    assert!(fetch_batch.is_some());

    // Response should delegate to snapshot coordinator.
    let result = result.expect("should succeed");
    assert!(result.snapshot_transfer_initiated);
    assert_eq!(sc.transfers_started.len(), 1);

    // No SM applies or listener commits during snapshot delegation.
    assert!(sm.applied.is_empty());
    assert!(listener.committed.is_empty());
}

// Integrated: Three-phase commit order (apply -> handle_commit -> complete)
#[test]
fn test_integrated_three_phase_commit_order() {
    let config = RaftConfig::default();
    let mgr = ReplicationManager::new(&config);
    let mut state = make_follower_state(2, 1);
    let mut sm = TestStateMachine::new();
    let mut listener = TestListener::new();
    let mut queue = DeferredCompletionQueue::new();
    let mut sc = TestSnapshotCoordinator::new();

    // Park a completion.
    let (tx, mut rx) = tokio::sync::oneshot::channel();
    queue.park(0, tx);

    state.fetch_deadline = NOW - 1_000;
    let entries = make_entries(0, 3, Term(1));
    let response = make_fetch_response(entries, 3);

    let (_, result) = run_follower_cycle(
        &mgr, &mut state, &response,
        &mut sm, &mut listener, &mut queue, &mut sc,
    );
    result.expect("should succeed");

    // Phase 1: SM applied 3 entries.
    assert_eq!(sm.applied.len(), 3);

    // Phase 2: Listener notified once with 3 records.
    assert_eq!(listener.committed.len(), 1);
    assert_eq!(listener.committed[0].len(), 3);

    // Phase 3: Completion for offset 0 fired (0 < HW=3).
    assert_eq!(rx.try_recv().unwrap(), 0);
}

// Integrated: Apply error halts node with begin_shutdown
#[test]
fn test_integrated_apply_error_halts_node() {
    let config = RaftConfig::default();
    let mgr = ReplicationManager::new(&config);
    let mut state = make_follower_state(2, 1);
    let mut sm = TestStateMachine::failing_at(1);
    let mut listener = TestListener::new();
    let mut queue = DeferredCompletionQueue::new();
    let mut sc = TestSnapshotCoordinator::new();

    state.fetch_deadline = NOW - 1_000;
    let entries = make_entries(0, 3, Term(1));
    let response = make_fetch_response(entries, 3);

    let (_, result) = run_follower_cycle(
        &mgr, &mut state, &response,
        &mut sm, &mut listener, &mut queue, &mut sc,
    );

    // Error should propagate.
    assert!(result.is_err());

    // begin_shutdown called for crash-stop.
    assert!(listener.shutdown_called);

    // Only offset 0 applied before failure at offset 1.
    assert_eq!(sm.applied.len(), 1);
    assert_eq!(sm.applied[0].0, 0);
}

// Protocol-safety and term-update tests

// Higher leader_epoch updates current_term, leader, and persists quorum state
#[test]
fn test_higher_leader_epoch_updates_term_and_persists() {
    let config = RaftConfig::default();
    let mgr = ReplicationManager::new(&config);
    let mut state = make_follower_state(2, 1);
    state.current_term = Term(1);
    let mut sm = TestStateMachine::new();
    let mut listener = TestListener::new();
    let mut queue = DeferredCompletionQueue::new();
    let mut sc = TestSnapshotCoordinator::new();

    // Response from leader with higher epoch (term 3).
    let response = FetchResponse {
        leader_id: NodeId(1),
        leader_epoch: Term(3),
        high_watermark: 0,
        log_start_offset: 0,
        entries: vec![],
        diverging_epoch: None,
        snapshot_id: None,
    };

    let result = mgr
        .handle_fetch_response(
            &mut state, &response, &mut sm, &mut listener, &mut queue,
            &mut sc, NOW, ELECTION_TIMEOUT,
        )
        .expect("should succeed");

    // Term should be updated.
    assert_eq!(state.current_term, Term(3));
    // voted_for should be cleared.
    assert_eq!(state.voted_for, None);
    // leader_id should be set.
    assert_eq!(state.leader_id, Some(NodeId(1)));
    // Role should be Follower.
    assert_eq!(state.role, Role::Follower);

    // PersistQuorumState IoAction should be produced.
    assert!(result.io_batch.actions.iter().any(|a| matches!(
        a,
        IoAction::PersistQuorumState(qs) if qs.current_term == Term(3)
    )));
}

// Candidate steps down on higher leader_epoch
#[test]
fn test_candidate_steps_down_on_higher_epoch() {
    let config = RaftConfig::default();
    let mgr = ReplicationManager::new(&config);
    let mut state = NodeState::new(NodeId(2), ClusterId::default());
    state.role = Role::Candidate;
    state.current_term = Term(2);
    state.leader_id = None;
    state.votes_received.insert(NodeId(2));
    let mut sm = TestStateMachine::new();
    let mut listener = TestListener::new();
    let mut queue = DeferredCompletionQueue::new();
    let mut sc = TestSnapshotCoordinator::new();

    let response = FetchResponse {
        leader_id: NodeId(1),
        leader_epoch: Term(5),
        high_watermark: 0,
        log_start_offset: 0,
        entries: vec![],
        diverging_epoch: None,
        snapshot_id: None,
    };

    let result = mgr
        .handle_fetch_response(
            &mut state, &response, &mut sm, &mut listener, &mut queue,
            &mut sc, NOW, ELECTION_TIMEOUT,
        )
        .expect("should succeed");

    assert_eq!(state.role, Role::Follower);
    assert_eq!(state.current_term, Term(5));
    assert_eq!(state.leader_id, Some(NodeId(1)));
    assert!(state.votes_received.is_empty(), "election state cleared");
    assert!(result.io_batch.actions.iter().any(|a| matches!(
        a,
        IoAction::PersistQuorumState(_)
    )));
}

// Mutually-exclusive snapshot_id and diverging_epoch rejected
#[test]
fn test_mutually_exclusive_snapshot_and_divergence_rejected() {
    let config = RaftConfig::default();
    let mgr = ReplicationManager::new(&config);
    let mut state = make_follower_state(2, 1);
    let mut sm = TestStateMachine::new();
    let mut listener = TestListener::new();
    let mut queue = DeferredCompletionQueue::new();
    let mut sc = TestSnapshotCoordinator::new();

    let response = FetchResponse {
        leader_id: NodeId(1),
        leader_epoch: Term(1),
        high_watermark: 0,
        log_start_offset: 0,
        entries: vec![],
        diverging_epoch: Some(DivergingEpoch {
            epoch: Term(1),
            end_offset: 0,
        }),
        snapshot_id: Some(SnapshotId {
            end_offset: 0,
            epoch: Term(1),
        }),
    };

    let result = mgr.handle_fetch_response(
        &mut state, &response, &mut sm, &mut listener, &mut queue,
        &mut sc, NOW, ELECTION_TIMEOUT,
    );

    assert!(result.is_err());
    match result.unwrap_err() {
        XraftError::InvalidResponse(msg) => {
            assert!(msg.contains("both"), "should mention both fields: {msg}");
        }
        other => panic!("expected InvalidResponse, got: {other:?}"),
    }
}

// FollowerEventLoop wires Clock to periodic fetch
#[test]
fn test_follower_event_loop_run_tick() {
    let config = RaftConfig::default();
    let event_loop = FollowerEventLoop::new(&config);
    let mut state = make_follower_state(2, 1);

    // Set fetch_deadline in the past.
    let clock_now = NOW;
    state.fetch_deadline = clock_now - 1_000;

    // run_tick should fire a Fetch RPC.
    let batch = event_loop.run_tick(&mut state, clock_now);
    assert!(!batch.is_empty(), "run_tick should fire SendRpc");
    assert!(batch.actions.iter().any(|a| matches!(a, IoAction::SendRpc(_, _))));

    // Fetch deadline should advance.
    assert_eq!(state.fetch_deadline, clock_now + config.fetch_interval_ms);

    // Calling again before deadline should produce empty batch.
    let batch2 = event_loop.run_tick(&mut state, clock_now);
    assert!(batch2.is_empty(), "should not fire before deadline");
}

// FollowerEventLoop handle_response delegates correctly
#[test]
fn test_follower_event_loop_handle_response() {
    let config = RaftConfig::default();
    let event_loop = FollowerEventLoop::new(&config);
    let mut state = make_follower_state(2, 1);
    let mut sm = TestStateMachine::new();
    let mut listener = TestListener::new();
    let mut queue = DeferredCompletionQueue::new();
    let mut sc = TestSnapshotCoordinator::new();

    let entries = make_entries(0, 3, Term(1));
    let response = make_fetch_response(entries, 3);

    let result = event_loop.handle_response(
        &mut state, &response, &mut sm, &mut listener, &mut queue, &mut sc, NOW, ELECTION_TIMEOUT,
    ).expect("should succeed");

    assert_eq!(state.log_end_offset, 3);
    assert_eq!(state.high_watermark, 3);
    assert_eq!(sm.applied.len(), 3);
    assert!(!result.snapshot_transfer_initiated);
}

// Divergence end_offset beyond log_end_offset is clamped
#[test]
fn test_divergence_end_offset_beyond_log_clamped() {
    let config = RaftConfig::default();
    let mgr = ReplicationManager::new(&config);
    let mut state = make_follower_state(2, 1);
    state.current_term = Term(2);
    let mut sm = TestStateMachine::new();
    let mut listener = TestListener::new();
    let mut queue = DeferredCompletionQueue::new();
    let mut sc = TestSnapshotCoordinator::new();

    // Pre-populate follower with entries 0-4, HW=3.
    let initial_entries = make_entries(0, 5, Term(1));
    state.append_entries(&initial_entries);
    state.high_watermark = 3;

    // Divergence end_offset=10 is beyond log_end_offset=5.
    let response = FetchResponse {
        leader_id: NodeId(1),
        leader_epoch: Term(2),
        high_watermark: 3,
        log_start_offset: 0,
        entries: vec![],
        diverging_epoch: Some(DivergingEpoch {
            epoch: Term(2),
            end_offset: 10,
        }),
        snapshot_id: None,
    };

    let result = mgr
        .handle_fetch_response(
            &mut state, &response, &mut sm, &mut listener, &mut queue,
            &mut sc, NOW, ELECTION_TIMEOUT,
        )
        .expect("should succeed - clamped to log end");

    // log_end_offset must NOT have moved forward to 10.
    // It should stay at 5 (clamped - nothing to truncate beyond log end).
    assert_eq!(state.log_end_offset, 5, "log_end_offset must not move forward");
    assert_eq!(state.log.len(), 5, "log entries must be unchanged");
    assert_eq!(state.high_watermark, 3, "HW must not change");

    // A re-fetch should still be issued from the current log_end_offset.
    let has_refetch = result.io_batch.actions.iter().any(|a| {
        if let IoAction::SendRpc(_, env) = a {
            if let RpcPayload::FetchRequest(req) = &env.payload {
                return req.fetch_offset == 5;
            }
        }
        false
    });
    assert!(has_refetch, "re-fetch should be issued from log_end_offset=5");

    // TruncateSuffix(5) is a no-op but should still be in the batch for
    // the I/O layer to confirm.
    assert!(result.io_batch.actions.iter().any(|a| matches!(a, IoAction::TruncateSuffix(5))));
}

// Stale in-flight response after role change to Candidate is rejected
#[test]
fn test_stale_response_after_role_change_to_candidate() {
    let config = RaftConfig::default();
    let mgr = ReplicationManager::new(&config);
    let mut state = make_follower_state(2, 1);
    state.current_term = Term(3);

    // Node transitions to Candidate (started election).
    state.role = Role::Candidate;
    state.leader_id = None;
    state.votes_received.insert(NodeId(2));

    let mut sm = TestStateMachine::new();
    let mut listener = TestListener::new();
    let mut queue = DeferredCompletionQueue::new();
    let mut sc = TestSnapshotCoordinator::new();

    // Stale fetch response from the old leader in the same term.
    // The node is now a Candidate, so it should reject this response.
    let response = FetchResponse {
        leader_id: NodeId(1),
        leader_epoch: Term(3),
        high_watermark: 0,
        log_start_offset: 0,
        entries: vec![],
        diverging_epoch: None,
        snapshot_id: None,
    };

    let result = mgr.handle_fetch_response(
        &mut state, &response, &mut sm, &mut listener, &mut queue,
        &mut sc, NOW, ELECTION_TIMEOUT,
    );

    assert!(result.is_err(), "should reject response when node is Candidate");
    match result.unwrap_err() {
        XraftError::InvalidResponse(msg) => {
            assert!(msg.contains("Candidate"), "error should mention role: {msg}");
        }
        other => panic!("expected InvalidResponse, got: {other:?}"),
    }

    // Role should remain Candidate - response must not alter state.
    assert_eq!(state.role, Role::Candidate);
}

// Stale in-flight response after role change to Leader is rejected
#[test]
fn test_stale_response_after_role_change_to_leader() {
    let config = RaftConfig::default();
    let mgr = ReplicationManager::new(&config);
    let mut state = make_follower_state(2, 1);
    state.current_term = Term(5);

    // Node became Leader in term 5.
    state.role = Role::Leader;
    state.leader_id = Some(NodeId(2)); // self is leader

    let mut sm = TestStateMachine::new();
    let mut listener = TestListener::new();
    let mut queue = DeferredCompletionQueue::new();
    let mut sc = TestSnapshotCoordinator::new();

    // Old fetch response from term 5 leader N1 arrives late.
    let response = FetchResponse {
        leader_id: NodeId(1),
        leader_epoch: Term(5),
        high_watermark: 0,
        log_start_offset: 0,
        entries: vec![],
        diverging_epoch: None,
        snapshot_id: None,
    };

    let result = mgr.handle_fetch_response(
        &mut state, &response, &mut sm, &mut listener, &mut queue,
        &mut sc, NOW, ELECTION_TIMEOUT,
    );

    // Should be rejected: wrong leader in same term (N1 vs N2).
    assert!(result.is_err(), "should reject response from wrong leader");

    // Role should remain Leader.
    assert_eq!(state.role, Role::Leader);
}

// Same-term leader discovery persists quorum state
#[test]
fn test_same_term_leader_discovery_persists_quorum_state() {
    let config = RaftConfig::default();
    let mgr = ReplicationManager::new(&config);

    // Follower knows term 3 but doesn't know who the leader is yet.
    let mut state = NodeState::new(NodeId(2), ClusterId::default());
    state.role = Role::Follower;
    state.current_term = Term(3);
    state.leader_id = None; // Leader unknown.

    let mut sm = TestStateMachine::new();
    let mut listener = TestListener::new();
    let mut queue = DeferredCompletionQueue::new();
    let mut sc = TestSnapshotCoordinator::new();

    // Response from N1 in the same term discovers the leader.
    let response = FetchResponse {
        leader_id: NodeId(1),
        leader_epoch: Term(3),
        high_watermark: 0,
        log_start_offset: 0,
        entries: vec![],
        diverging_epoch: None,
        snapshot_id: None,
    };

    let result = mgr
        .handle_fetch_response(
            &mut state, &response, &mut sm, &mut listener, &mut queue,
            &mut sc, NOW, ELECTION_TIMEOUT,
        )
        .expect("should succeed");

    // Leader should be recorded.
    assert_eq!(state.leader_id, Some(NodeId(1)));

    // PersistQuorumState should be produced to persist the leader discovery.
    assert!(
        result.io_batch.actions.iter().any(|a| matches!(
            a,
            IoAction::PersistQuorumState(qs)
                if qs.current_term == Term(3)
                && qs.leader_id == Some(NodeId(1))
        )),
        "should persist quorum state on same-term leader discovery"
    );
}

// PersistQuorumState is produced AFTER callbacks
// Verify that when a term bump triggers PersistQuorumState AND entries
// are committed, the callbacks run first (SM apply, listener, completions)
// and then IoActions including PersistQuorumState are in the returned batch.
#[test]
fn test_persist_quorum_state_after_callbacks_on_term_bump() {
    let config = RaftConfig::default();
    let mgr = ReplicationManager::new(&config);
    let mut state = make_follower_state(2, 1);
    state.current_term = Term(1);
    let mut sm = TestStateMachine::new();
    let mut listener = TestListener::new();
    let mut queue = DeferredCompletionQueue::new();
    let mut sc = TestSnapshotCoordinator::new();

    let (tx, mut rx) = tokio::sync::oneshot::channel();
    queue.park(0, tx);

    // Response with higher term AND entries to commit.
    let entries = make_entries(0, 3, Term(2));
    let response = FetchResponse {
        leader_id: NodeId(1),
        leader_epoch: Term(2),
        high_watermark: 3,
        log_start_offset: 0,
        entries,
        diverging_epoch: None,
        snapshot_id: None,
    };

    let result = mgr
        .handle_fetch_response(
            &mut state, &response, &mut sm, &mut listener, &mut queue,
            &mut sc, NOW, ELECTION_TIMEOUT,
        )
        .expect("should succeed");

    // Callbacks ran synchronously before the result was returned:
    assert_eq!(sm.applied.len(), 3, "SM should have applied 3 entries");
    assert_eq!(listener.committed.len(), 1, "listener should have been notified");
    assert_eq!(rx.try_recv().unwrap(), 0, "completion should have fired");

    // Both PersistQuorumState and AppendLog should be in the batch
    // (produced after callbacks).
    assert!(result.io_batch.actions.iter().any(|a| matches!(
        a,
        IoAction::PersistQuorumState(qs) if qs.current_term == Term(2)
    )));
    assert!(result.io_batch.actions.iter().any(|a| matches!(
        a,
        IoAction::AppendLog(_)
    )));
}

#[test]
fn a_higher_term_is_adopted_even_from_a_contradictory_response() {
    let mgr = ReplicationManager::new(&RaftConfig::default());
    let mut state = make_follower_state(2, 1);
    let deadline = state.election_deadline;
    let mut response = make_fetch_response(vec![], 0);
    response.leader_id = NodeId(3);
    response.leader_epoch = Term(4);
    response.diverging_epoch = Some(DivergingEpoch { epoch: Term(1), end_offset: 0 });
    response.snapshot_id = Some(SnapshotId { end_offset: 0, epoch: Term(1) });
    let mut sc = TestSnapshotCoordinator::new();
    let result = mgr.handle_fetch_response(
        &mut state,
        &response,
        &mut TestStateMachine::new(),
        &mut TestListener::new(),
        &mut DeferredCompletionQueue::new(),
        &mut sc,
        NOW,
        ELECTION_TIMEOUT,
    );
    assert_eq!(
        result.err(),
        Some(XraftError::InvalidResponse(String::from(
            "response contains both snapshot_id and diverging_epoch"
        )))
    );
    assert_eq!(state.current_term, Term(4));
    assert_eq!(state.leader_id, Some(NodeId(3)));
    assert_eq!(state.election_deadline, deadline);
    assert!(sc.transfers_started.is_empty());
}

#[test]
fn committing_in_two_steps_hands_over_each_entry_once() {
    let mgr = ReplicationManager::new(&RaftConfig::default());
    let mut state = make_follower_state(2, 1);
    let mut sm = TestStateMachine::new();
    let mut listener = TestListener::new();
    let mut queue = DeferredCompletionQueue::new();
    let mut sc = TestSnapshotCoordinator::new();
    let entries = make_entries(0, 5, Term(1));
    for (batch, hw) in [(entries, 2), (vec![], 5), (vec![], 3)] {
        let response = make_fetch_response(batch, hw);
        mgr.handle_fetch_response(
            &mut state,
            &response,
            &mut sm,
            &mut listener,
            &mut queue,
            &mut sc,
            NOW,
            ELECTION_TIMEOUT,
        )
        .unwrap();
    }
    let applied: Vec<u64> = sm.applied.iter().map(|(o, _)| *o).collect();
    assert_eq!(applied, vec![0, 1, 2, 3, 4]);
    assert_eq!(listener.committed.len(), 2);
    assert_eq!(state.high_watermark, 5);
}

// Offsets at the end of the range matter only where entries are appended.
#[test]
fn offsets_at_the_end_of_the_range() {
    let mgr = ReplicationManager::new(&RaftConfig::default());
    let mut sm = TestStateMachine::new();
    let mut listener = TestListener::new();
    let mut queue = DeferredCompletionQueue::new();
    let mut sc = TestSnapshotCoordinator::new();
    let mut state = make_follower_state(2, 1);
    let last = make_entry(u64::MAX, Term(1));

    // Not the next entry: rejected.
    let response = make_fetch_response(vec![last.clone()], 0);
    let err = mgr
        .handle_fetch_response(
            &mut state, &response, &mut sm, &mut listener, &mut queue,
            &mut sc, NOW, ELECTION_TIMEOUT,
        )
        .unwrap_err();
    match err {
        XraftError::InvalidResponse(m) => assert_eq!(
            m,
            "first entry offset 18446744073709551615 does not match log_end_offset 0"
        ),
        other => panic!("expected InvalidResponse, got {other:?}"),
    }

    // A gap behind it: rejected.
    state.log_end_offset = u64::MAX;
    let response = make_fetch_response(vec![last.clone(), make_entry(0, Term(1))], 0);
    assert!(mgr
        .handle_fetch_response(
            &mut state, &response, &mut sm, &mut listener, &mut queue,
            &mut sc, NOW, ELECTION_TIMEOUT,
        )
        .is_err());

    // With a divergence the entries are not looked at.
    let mut response = make_fetch_response(vec![last], 0);
    response.diverging_epoch = Some(DivergingEpoch { epoch: Term(1), end_offset: 3 });
    mgr.handle_fetch_response(
        &mut state, &response, &mut sm, &mut listener, &mut queue,
        &mut sc, NOW, ELECTION_TIMEOUT,
    )
    .expect("should succeed");
    assert_eq!(state.log_end_offset, 3);

    // The last entry that fits is appended, and the watermark follows.
    state.log_end_offset = u64::MAX - 1;
    let response = make_fetch_response(vec![make_entry(u64::MAX - 1, Term(1))], u64::MAX);
    mgr.handle_fetch_response(
        &mut state, &response, &mut sm, &mut listener, &mut queue,
        &mut sc, NOW, ELECTION_TIMEOUT,
    )
    .expect("should succeed");
    assert_eq!(state.log_end_offset, u64::MAX);
    assert_eq!(state.high_watermark, u64::MAX);
}
