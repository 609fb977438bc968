//! Parks proposal futures until the high watermark advances.
//!
//! A client that proposes an entry receives a channel that resolves once the
//! entry is committed, that is, once its offset is below the high watermark.
use std::collections::BTreeMap;

use tokio::sync::oneshot::Sender;
use vstd::prelude::*;

use crate::commit_channel::{new_channel, send_value, CommitReceiver, Delivery, DeliveryView};

verus! {

broadcast use vstd::std_specs::btree::group_btree_axioms;

/// The part of `m` with keys of at least `key`.
pub open spec fn at_or_above(m: Map<u64, Sender<u64>>, key: u64) -> Map<u64, Sender<u64>> {
    m.restrict(Set::new(|k: u64| k >= key))
}

/// The part of `m` with keys below `key`.
pub open spec fn below(m: Map<u64, Sender<u64>>, key: u64) -> Map<u64, Sender<u64>> {
    m.restrict(Set::new(|k: u64| k < key))
}

/// `BTreeMap::split_off` of `std`: leaves the keys below `key` in the map and
/// returns the others, with their values.
#[verifier::external_body]
fn split_off(m: &mut BTreeMap<u64, Sender<u64>>, key: u64) -> (r: BTreeMap<u64, Sender<u64>>)
    ensures
        final(m)@ == below(old(m)@, key),
        r@ == at_or_above(old(m)@, key),
{
    m.split_off(&key)
}

/// `BTreeMap::pop_first` of `std`: removes the smallest key with its value, or
/// returns `None` where the map is empty.
#[verifier::external_body]
fn pop_first(m: &mut BTreeMap<u64, Sender<u64>>) -> (r: Option<(u64, Sender<u64>)>)
    ensures
        r is None <==> old(m)@.dom() == Set::<u64>::empty(),
        r is None ==> final(m)@ == old(m)@,
        r matches Some(e) ==> {
            &&& old(m)@.contains_key(e.0)
            &&& old(m)@[e.0] == e.1
            &&& final(m)@ == old(m)@.remove(e.0)
            &&& forall|k: u64| #[trigger] final(m)@.contains_key(k) ==> e.0 < k
        },
{
    m.pop_first()
}

/// What was sent, and where.
pub open spec fn delivery_views(deliveries: Seq<Delivery>) -> Seq<DeliveryView> {
    deliveries.map_values(|d: Delivery| d@)
}

/// Each sender of the map, and no other, was sent the offset that it was parked
/// at, once, in the order of the offsets.
pub open spec fn delivers(sent: Seq<DeliveryView>, parked: Map<u64, Sender<u64>>) -> bool {
    &&& forall|i: int|
        0 <= i < sent.len() ==> parked.contains_key((#[trigger] sent[i]).value)
            && parked[sent[i].value] == sent[i].sender
    &&& forall|i: int, j: int| 0 <= i < j < sent.len() ==> sent[i].value < sent[j].value
    &&& forall|k: u64| #[trigger]
        parked.contains_key(k) ==> exists|i: int|
            0 <= i < sent.len() && (#[trigger] sent[i]).value == k
}

/// Parks one-shot senders keyed by log offset.
///
/// When the high watermark advances, the queue completes all futures whose
/// offset is now below it.
pub struct DeferredCompletionQueue {
    pending: BTreeMap<u64, Sender<u64>>,
    sent: Ghost<Seq<DeliveryView>>,
}

#[verifier::ext_equal]
pub struct QueueView {
    /// The senders that are parked, by their offsets.
    pub pending: Map<u64, Sender<u64>>,
    /// All that was sent so far, in order.
    pub sent: Seq<DeliveryView>,
}

impl View for DeferredCompletionQueue {
    type V = QueueView;

    closed spec fn view(&self) -> QueueView {
        QueueView { pending: self.pending@, sent: self.sent@ }
    }
}

impl QueueView {
    /// A queue that was never used.
    pub open spec fn empty() -> Self {
        QueueView { pending: Map::empty(), sent: Seq::empty() }
    }

    /// With a sender parked at an offset.
    pub open spec fn parked(self, offset: u64, tx: Sender<u64>) -> Self {
        QueueView { pending: self.pending.insert(offset, tx), ..self }
    }

    /// Without the senders at `offset` and above, which were dropped.
    pub open spec fn failed(self, offset: u64) -> Self {
        QueueView { pending: below(self.pending, offset), ..self }
    }

    /// `after` is the queue completed up to `hw`: every sender parked below
    /// it was sent its own offset, nothing else was sent, and the others are
    /// still parked.
    pub open spec fn completed(self, hw: u64, after: Self) -> bool {
        &&& after.pending == at_or_above(self.pending, hw)
        &&& self.sent.is_prefix_of(after.sent)
        &&& delivers(after.sent.skip(self.sent.len() as int), below(self.pending, hw))
    }
}

impl DeferredCompletionQueue {
    pub fn new() -> (r: Self)
        ensures
            r@ == QueueView::empty(),
    {
        DeferredCompletionQueue { pending: BTreeMap::new(), sent: Ghost(Seq::empty()) }
    }

    /// Register a proposal at the given offset. Returns the receiver of the
    /// sender that is parked, which resolves with the committed offset when
    /// the high watermark advances past it.
    pub fn enqueue(&mut self, offset: u64) -> (rx: CommitReceiver)
        ensures
            final(self)@ == old(self)@.parked(offset, rx.sender()),
    {
        let (tx, rx) = new_channel();
        self.pending.insert(offset, tx);
        rx
    }

    /// Register a proposal at the given offset with a channel of the caller's.
    pub fn park(&mut self, offset: u64, tx: Sender<u64>)
        ensures
            final(self)@ == old(self)@.parked(offset, tx),
    {
        self.pending.insert(offset, tx);
    }

    /// Removes the proposals with offsets below `hw` and returns them in the
    /// order of their offsets.
    fn take_committed(&mut self, hw: u64) -> (r: Vec<(u64, Sender<u64>)>)
        ensures
            final(self)@ == (QueueView {
                pending: at_or_above(old(self)@.pending, hw),
                ..old(self)@
            }),
            forall|i: int|
                0 <= i < r@.len() ==> below(old(self)@.pending, hw).contains_key(
                    (#[trigger] r@[i]).0,
                ) && old(self)@.pending[r@[i].0] == r@[i].1,
            forall|i: int, j: int| 0 <= i < j < r@.len() ==> r@[i].0 < r@[j].0,
            forall|k: u64| #[trigger]
                below(old(self)@.pending, hw).contains_key(k) ==> exists|i: int|
                    0 <= i < r@.len() && #[trigger] r@[i].0 == k,
    {
        let remaining = split_off(&mut self.pending, hw);
        let mut committed = remaining;
        std::mem::swap(&mut committed, &mut self.pending);
        let ghost all = committed@;
        let ghost start = old(self)@.pending;
        let mut r: Vec<(u64, Sender<u64>)> = Vec::new();
        let mut more = true;
        while more
            invariant
                all == below(start, hw),
                all.dom().finite(),
                !more ==> committed@ == Map::<u64, Sender<u64>>::empty(),
                forall|k: u64| #[trigger]
                    committed@.contains_key(k) ==> all.contains_key(k) && all[k] == committed@[k],
                forall|i: int|
                    0 <= i < r@.len() ==> all.contains_key((#[trigger] r@[i]).0) && all[r@[i].0]
                        == r@[i].1 && !committed@.contains_key(r@[i].0),
                forall|i: int, j: int| 0 <= i < j < r@.len() ==> r@[i].0 < r@[j].0,
                forall|i: int, k: u64|
                    0 <= i < r@.len() && committed@.contains_key(k) ==> (#[trigger] r@[i]).0
                        < #[trigger] idk(k),
                forall|k: u64| #[trigger]
                    all.contains_key(k) ==> committed@.contains_key(k) || exists|i: int|
                        0 <= i < r@.len() && #[trigger] r@[i].0 == k,
                committed@.dom().finite(),
            decreases committed@.dom().len(), if more { 1int } else { 0int },
        {
            let ghost before = committed@;
            let ghost r0 = r@;
            match pop_first(&mut committed) {
                Some(e) => {
                    r.push(e);
                    proof {
                        assert(idk(e.0) == e.0);
                        assert forall|k: u64| #[trigger] all.contains_key(k) implies
                            committed@.contains_key(k) || exists|i: int|
                            0 <= i < r@.len() && #[trigger] r@[i].0 == k by {
                            if k == e.0 {
                                assert(r@[r0.len() as int].0 == k);
                            } else if !before.contains_key(k) {
                                let i = choose|i: int| 0 <= i < r0.len() && #[trigger] r0[i].0 == k;
                                assert(r@[i].0 == k);
                            }
                        }
                        assert(committed@.dom() =~= before.dom().remove(e.0));
                    }
                },
                None => {
                    more = false;
                },
            }
        }
        r
    }

    /// Complete all pending proposals with offsets strictly less than `hw`, in
    /// the order of their offsets. Sends each its offset, through the sender
    /// parked at that offset; a receiver that is gone is passed over. Returns
    /// what was sent.
    pub fn complete(&mut self, hw: u64) -> (r: Vec<Delivery>)
        ensures
            old(self)@.completed(hw, final(self)@),
            final(self)@.sent == old(self)@.sent + delivery_views(r@),
    {
        let mut committed = self.take_committed(hw);
        let ghost all = committed@;
        let mut r: Vec<Delivery> = Vec::new();
        assert(all.skip(0) =~= all);
        while committed.len() > 0
            invariant
                r@.len() + committed@.len() == all.len(),
                committed@ == all.skip(r@.len() as int),
                forall|i: int|
                    0 <= i < r@.len() ==> (#[trigger] r@[i])@ == (DeliveryView {
                        value: all[i].0,
                        sender: all[i].1,
                    }),
            decreases committed@.len(),
        {
            let (offset, sender) = committed.remove(0);
            assert((offset, sender) == all[r@.len() as int]);
            assert(committed@ =~= all.skip(r@.len() as int + 1));
            r.push(send_value(sender, offset));
        }
        let ghost views = delivery_views(r@);
        self.sent = Ghost(self.sent@ + views);
        proof {
            assert(self@.sent.skip(old(self)@.sent.len() as int) =~= views);
            assert forall|i: int| 0 <= i < views.len() implies (#[trigger] views[i]) == (
            DeliveryView { value: all[i].0, sender: all[i].1 }) by {
                assert(views[i] == r@[i]@);
            }
            assert forall|k: u64| #[trigger]
                below(old(self)@.pending, hw).contains_key(k) implies exists|i: int|
                0 <= i < views.len() && (#[trigger] views[i]).value == k by {
                let i = choose|i: int| 0 <= i < all.len() && #[trigger] all[i].0 == k;
                assert(views[i].value == k);
            }
        }
        r
    }

    /// Drops all pending proposals with offsets of at least `offset`, so that
    /// their receivers report a failure.
    pub fn fail_at_or_above(&mut self, offset: u64)
        ensures
            final(self)@ == old(self)@.failed(offset),
    {
        let _failed = split_off(&mut self.pending, offset);
    }

    /// Number of proposals still waiting for commit.
    pub fn pending_count(&self) -> (n: usize)
        ensures
            n == self@.pending.dom().len(),
    {
        self.pending.len()
    }

    /// Number of proposals still waiting for commit.
    pub fn len(&self) -> (n: usize)
        ensures
            n == self@.pending.dom().len(),
    {
        self.pending.len()
    }

    /// Check if all tracked proposals have been completed.
    pub fn all_completed(&self) -> (b: bool)
        ensures
            b == (self@.pending == Map::<u64, Sender<u64>>::empty()),
    {
        let b = self.pending.is_empty();
        proof {
            if b {
                assert(self@.pending =~= Map::<u64, Sender<u64>>::empty());
            }
        }
        b
    }
}

/// The key itself; names it for quantifiers.
spec fn idk(k: u64) -> u64 {
    k
}

impl Default for DeferredCompletionQueue {
    fn default() -> (r: Self)
        ensures
            r@ == QueueView::empty(),
    {
        DeferredCompletionQueue::new()
    }
}

/// Exactly the proposals below the watermark are resolved, each by its own
/// offset; the others are still pending.
pub proof fn law_complete_resolves(before: QueueView, hw: u64, after: QueueView, offset: u64)
    requires
        before.completed(hw, after),
        before.pending.contains_key(offset),
    ensures
        ({
            let own = DeliveryView { value: offset, sender: before.pending[offset] };
            let sent = after.sent.skip(before.sent.len() as int);
            &&& offset < hw ==> sent.contains(own) && !after.pending.contains_key(offset)
            &&& offset >= hw ==> after.pending.contains_key(offset) && after.pending[offset]
                == before.pending[offset]
            &&& forall|i: int|
                0 <= i < sent.len() ==> (#[trigger] sent[i]).value == offset ==> offset < hw
                    && sent[i] == own
        }),
{
    let own = DeliveryView { value: offset, sender: before.pending[offset] };
    let sent = after.sent.skip(before.sent.len() as int);
    if offset < hw {
        assert(below(before.pending, hw).contains_key(offset));
        let i = choose|i: int| 0 <= i < sent.len() && (#[trigger] sent[i]).value == offset;
        assert(sent[i] == own);
    }
}

/// Completing up to one watermark and then up to a higher one does what
/// completing up to the higher one does.
pub proof fn law_complete_is_monotone(
    before: QueueView,
    hw1: u64,
    between: QueueView,
    hw2: u64,
    after: QueueView,
)
    requires
        hw1 <= hw2,
        before.completed(hw1, between),
        between.completed(hw2, after),
    ensures
        before.completed(hw2, after),
{
    let first = between.sent.skip(before.sent.len() as int);
    let second = after.sent.skip(between.sent.len() as int);
    let both = after.sent.skip(before.sent.len() as int);
    assert(after.pending =~= at_or_above(before.pending, hw2));
    assert(both =~= first + second);
    assert forall|i: int| 0 <= i < both.len() implies below(before.pending, hw2).contains_key(
        (#[trigger] both[i]).value,
    ) && before.pending[both[i].value] == both[i].sender && (both[i].value < hw1 <==> i
        < first.len()) by {
        if i < first.len() {
            assert(both[i] == first[i]);
        } else {
            assert(both[i] == second[i - first.len()]);
        }
    }
    assert forall|i: int, j: int| 0 <= i < j < both.len() implies both[i].value
        < both[j].value by {
        if j < first.len() {
            assert(first[i].value < first[j].value);
        } else if i >= first.len() {
            assert(second[i - first.len()].value < second[j - first.len()].value);
        }
    }
    assert forall|k: u64| #[trigger] below(before.pending, hw2).contains_key(k) implies exists|
        i: int,
    |
        0 <= i < both.len() && (#[trigger] both[i]).value == k by {
        if k < hw1 {
            assert(below(before.pending, hw1).contains_key(k));
            let i = choose|i: int| 0 <= i < first.len() && (#[trigger] first[i]).value == k;
            assert(both[i].value == k);
        } else {
            assert(below(between.pending, hw2).contains_key(k));
            let i = choose|i: int| 0 <= i < second.len() && (#[trigger] second[i]).value == k;
            assert(both[first.len() + i].value == k);
        }
    }
}

/// Every pending proposal is either completed or kept at a watermark, and
/// none is both.
pub proof fn law_complete_and_fail_split(m: Map<u64, Sender<u64>>, key: u64)
    ensures
        below(m, key).union_prefer_right(at_or_above(m, key)) == m,
        below(m, key).dom().disjoint(at_or_above(m, key).dom()),
{
    assert(below(m, key).union_prefer_right(at_or_above(m, key)) =~= m);
}

/// A proposal that is parked waits under its offset, and the others wait as
/// before; nothing is sent.
pub proof fn law_park_adds(q: QueueView, offset: u64, tx: Sender<u64>, other: u64)
    ensures
        q.parked(offset, tx).pending.contains_key(offset),
        q.parked(offset, tx).pending[offset] == tx,
        other != offset ==> (q.parked(offset, tx).pending.contains_key(other)
            <==> q.pending.contains_key(other)),
        other != offset && q.pending.contains_key(other) ==> q.parked(offset, tx).pending[other]
            == q.pending[other],
        q.parked(offset, tx).sent == q.sent,
{
}

/// Failing the proposals from an offset on drops exactly those, and sends
/// nothing.
pub proof fn law_fail_drops_from(q: QueueView, offset: u64, other: u64)
    ensures
        q.failed(offset).pending.contains_key(other) <==> q.pending.contains_key(other) && other
            < offset,
        q.failed(offset).pending.contains_key(other) ==> q.failed(offset).pending[other]
            == q.pending[other],
        q.failed(offset).sent == q.sent,
{
}

} // verus!
