use xraft::app_record::AppSnapshot;
use xraft::error::{IoFault, IoFaultKind};
use xraft::io_action::{IoAction, IoActionBatch};
use xraft::io_stage::{merge_results, IoResult, IoStage};
use xraft::log_entry::LogEntry;
use xraft::quorum_state::QuorumState;
use xraft::rpc::{RpcEnvelope, RpcPayload, VoteResponse};
use xraft::snapshot::{Snapshot, SnapshotMetadata};
use xraft::types::{ClusterId, NodeId, Term};

fn rpc(to: u64) -> IoAction {
    IoAction::SendRpc(
        NodeId(to),
        RpcEnvelope {
            cluster_id: ClusterId(1),
            leader_epoch: Term(0),
            source: NodeId(1),
            payload: RpcPayload::VoteResponse(VoteResponse {
                term: Term(1),
                vote_granted: true,
                is_pre_vote: false,
            }),
        },
    )
}

fn save_snapshot() -> IoAction {
    IoAction::SaveSnapshot(Snapshot {
        metadata: SnapshotMetadata {
            last_included_offset: 4,
            last_included_term: 1,
            voters: vec![],
            leader_epoch: 1,
        },
        app_snapshot: AppSnapshot::new(vec![9]),
    })
}

fn batch() -> IoActionBatch {
    let mut b = IoActionBatch::new();
    b.push(rpc(2));
    b.push(IoAction::AppendLog(vec![LogEntry::leader_change(0, Term(1))]));
    b.push(save_snapshot());
    b.push(rpc(3));
    b.push(IoAction::TruncatePrefix(2));
    b.push(IoAction::TruncateSuffix(7));
    b.push(IoAction::PersistQuorumState(QuorumState::default()));
    b
}

fn fault() -> IoFault {
    IoFault::new(IoFaultKind::Other, String::from("broken"))
}

#[test]
fn a_batch_is_split_into_storage_and_network() {
    assert!(IoActionBatch::default().is_empty());
    let mut all = batch();
    let mut more = IoActionBatch::new();
    more.push(rpc(9));
    all.extend(more);
    assert!(!all.is_empty());
    let (storage, network) = all.partition();
    assert_eq!(storage.len(), 5);
    assert!(matches!(&storage[0], IoAction::AppendLog(_)));
    assert!(matches!(&storage[1], IoAction::SaveSnapshot(_)));
    assert!(matches!(&storage[4], IoAction::PersistQuorumState(_)));
    let targets: Vec<NodeId> = network
        .iter()
        .map(|a| match a {
            IoAction::SendRpc(to, _) => *to,
            other => panic!("unexpected {other:?}"),
        })
        .collect();
    assert_eq!(targets, vec![NodeId(2), NodeId(3), NodeId(9)]);
}

#[test]
fn the_stage_sorts_actions_into_three_groups() {
    let mut b = batch();
    let stage = IoStage::partition(&mut b);
    assert!(b.is_empty());
    let numbers = |group: &Vec<(usize, IoAction)>| -> Vec<usize> {
        group.iter().map(|(i, _)| *i).collect()
    };
    assert_eq!(numbers(&stage.network), vec![0, 3]);
    assert_eq!(numbers(&stage.log), vec![1, 4, 5, 6]);
    assert_eq!(numbers(&stage.snapshot), vec![2]);
}

#[test]
fn results_come_back_in_the_order_of_the_batch() {
    let merged = merge_results(
        vec![(1, "append"), (4, "prefix"), (5, "suffix")],
        vec![(2, "snapshot")],
        vec![(0, "first"), (3, "second")],
    );
    assert_eq!(merged, vec!["first", "append", "snapshot", "second", "prefix", "suffix"]);
    let none: Vec<u8> = merge_results(vec![], vec![], vec![]);
    assert!(none.is_empty());
}

#[test]
fn each_action_has_its_own_results() {
    let b = batch();
    let good: Vec<IoResult> = b.actions.iter().map(|a| IoResult::of(a, Ok(()))).collect();
    assert_eq!(
        good,
        vec![
            IoResult::RpcSent,
            IoResult::LogAppended,
            IoResult::SnapshotSaved,
            IoResult::RpcSent,
            IoResult::PrefixTruncated,
            IoResult::SuffixTruncated,
            IoResult::QuorumStatePersisted,
        ]
    );
    let bad: Vec<IoResult> = b.actions.iter().map(|a| IoResult::of(a, Err(fault()))).collect();
    assert_eq!(
        bad,
        vec![
            IoResult::RpcFailed(fault()),
            IoResult::StorageFailed(fault()),
            IoResult::SnapshotSaveFailed(fault()),
            IoResult::RpcFailed(fault()),
            IoResult::PrefixTruncateFailed(fault()),
            IoResult::StorageFailed(fault()),
            IoResult::StorageFailed(fault()),
        ]
    );
}
