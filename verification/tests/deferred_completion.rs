use xraft::deferred_completion::DeferredCompletionQueue;

#[test]
fn enqueue_and_complete() {
    let mut dcq = DeferredCompletionQueue::new();
    let mut rx1 = dcq.enqueue(0).into_inner();
    let mut rx2 = dcq.enqueue(1).into_inner();
    let mut rx3 = dcq.enqueue(2).into_inner();

    assert_eq!(dcq.pending_count(), 3);

    // HW=2 completes offsets 0 and 1 (< 2), not offset 2
    dcq.complete(2);
    assert_eq!(dcq.pending_count(), 1);

    assert_eq!(rx1.try_recv().unwrap(), 0);
    assert_eq!(rx2.try_recv().unwrap(), 1);
    assert!(rx3.try_recv().is_err()); // still pending

    // HW=3 completes offset 2
    dcq.complete(3);
    assert!(dcq.all_completed());
    assert_eq!(rx3.try_recv().unwrap(), 2);
}

#[test]
fn complete_idempotent_when_empty() {
    let mut dcq = DeferredCompletionQueue::new();
    dcq.complete(100); // should not panic
    assert!(dcq.all_completed());
}

#[test]
fn completing_in_steps_leaves_what_one_step_leaves() {
    let mut steps = DeferredCompletionQueue::default();
    let mut once = DeferredCompletionQueue::default();
    let mut kept = Vec::new();
    for offset in [3, 9, 4, 12] {
        kept.push(steps.enqueue(offset).into_inner());
        kept.push(once.enqueue(offset).into_inner());
    }
    steps.complete(4);
    steps.complete(10);
    once.complete(10);
    assert_eq!(steps.pending_count(), 1);
    assert_eq!(once.pending_count(), 1);
    assert_eq!(kept[0].try_recv().unwrap(), 3);
    assert!(kept[6].try_recv().is_err());
}

#[test]
fn a_failed_proposal_closes_its_channel() {
    let mut dcq = DeferredCompletionQueue::new();
    let mut low = dcq.enqueue(1).into_inner();
    let mut high = dcq.enqueue(2).into_inner();
    dcq.fail_at_or_above(2);
    assert_eq!(dcq.len(), 1);
    assert!(matches!(
        high.try_recv(),
        Err(tokio::sync::oneshot::error::TryRecvError::Closed)
    ));
    dcq.complete(2);
    assert_eq!(low.try_recv().unwrap(), 1);
}

#[test]
fn committed_proposals_come_out_in_the_order_of_their_offsets() {
    let mut dcq = DeferredCompletionQueue::new();
    let mut receivers = Vec::new();
    for offset in [8, 2, 5] {
        receivers.push(dcq.enqueue(offset));
    }
    let sent: Vec<u64> = dcq.complete(6).iter().map(|d| d.value()).collect();
    assert_eq!(sent, vec![2, 5]);
    assert_eq!(dcq.pending_count(), 1);
    // A receiver that is gone is passed over.
    receivers.clear();
    assert_eq!(dcq.complete(9).len(), 1);
    assert!(dcq.all_completed());
}

#[test]
fn each_receiver_resolves_with_its_own_offset() {
    let mut dcq = DeferredCompletionQueue::new();
    let offsets = [7, 1, 4, 9, 2];
    let mut receivers: Vec<_> =
        offsets.iter().map(|o| (*o, dcq.enqueue(*o).into_inner())).collect();
    dcq.complete(5);
    for (offset, rx) in receivers.iter_mut() {
        if *offset < 5 {
            assert_eq!(rx.try_recv().unwrap(), *offset);
        } else {
            assert!(matches!(
                rx.try_recv(),
                Err(tokio::sync::oneshot::error::TryRecvError::Empty)
            ));
        }
    }
    assert_eq!(dcq.pending_count(), 2);
}

#[test]
fn a_second_proposal_at_an_offset_takes_the_place_of_the_first() {
    let mut dcq = DeferredCompletionQueue::new();
    let mut first = dcq.enqueue(3).into_inner();
    let mut second = dcq.enqueue(3).into_inner();
    assert_eq!(dcq.pending_count(), 1);
    dcq.complete(4);
    assert!(matches!(
        first.try_recv(),
        Err(tokio::sync::oneshot::error::TryRecvError::Closed)
    ));
    assert_eq!(second.try_recv().unwrap(), 3);
}
