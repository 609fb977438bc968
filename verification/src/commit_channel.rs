//! One-shot channels that tell a client that its proposal was committed.
//!
//! A receiver knows, for proofs, which sender it belongs to, and a delivery
//! which sender it went through. Both are made here alone, where the outside
//! calls are, so that no one else can claim either.
use tokio::sync::oneshot::{channel, Receiver, Sender};
use vstd::prelude::*;

verus! {

/// The sending half of a one-shot channel.
#[verifier::external_type_specification]
#[verifier::external_body]
#[verifier::reject_recursive_types(T)]
pub struct ExSender<T>(tokio::sync::oneshot::Sender<T>);

/// The receiving half of a one-shot channel.
#[verifier::external_type_specification]
#[verifier::external_body]
#[verifier::reject_recursive_types(T)]
pub struct ExReceiver<T>(tokio::sync::oneshot::Receiver<T>);

/// What awaiting a receiver reports when its sender is gone. It occurs in the
/// receiver's `Future` impl, and has to be known for that.
#[verifier::external_type_specification]
#[verifier::external_body]
pub struct ExRecvError(tokio::sync::oneshot::error::RecvError);

/// The receiving half of a channel. It resolves with what is sent through its
/// sender, and fails if that is dropped.
pub struct CommitReceiver {
    rx: Receiver<u64>,
    sender: Ghost<Sender<u64>>,
}

impl CommitReceiver {
    /// The sender that this is the receiver of.
    pub closed spec fn sender(&self) -> Sender<u64> {
        self.sender@
    }

    /// The receiver as the runtime knows it.
    pub closed spec fn receiver(&self) -> Receiver<u64> {
        self.rx
    }

    /// The receiver as the runtime knows it, to be awaited.
    pub fn into_inner(self) -> (rx: Receiver<u64>)
        ensures
            rx == self.receiver(),
    {
        self.rx
    }
}

/// An offset that was sent through a channel.
pub struct Delivery {
    value: u64,
    sender: Ghost<Sender<u64>>,
}

#[verifier::ext_equal]
pub struct DeliveryView {
    /// What was sent.
    pub value: u64,
    /// Where it was sent.
    pub sender: Sender<u64>,
}

impl View for Delivery {
    type V = DeliveryView;

    closed spec fn view(&self) -> DeliveryView {
        DeliveryView { value: self.value, sender: self.sender@ }
    }
}

impl Delivery {
    /// What was sent.
    pub fn value(&self) -> (n: u64)
        ensures
            n == self@.value,
    {
        self.value
    }
}

/// `tokio::sync::oneshot::channel`: the two halves of one new channel. The
/// receiver is that of the sender.
#[verifier::external_body]
pub(crate) fn new_channel() -> (r: (Sender<u64>, CommitReceiver))
    ensures
        r.1.sender() == r.0,
{
    let (tx, rx) = channel();
    let sender = Ghost(tx);
    (tx, CommitReceiver { rx, sender })
}

/// `tokio::sync::oneshot::Sender::send`: sends the value through this sender, to
/// its receiver and no other. That the receiver is still there rests on its
/// owner and is not stated; one that is gone is passed over.
#[verifier::external_body]
pub(crate) fn send_value(tx: Sender<u64>, value: u64) -> (d: Delivery)
    ensures
        d@ == (DeliveryView { value, sender: tx }),
{
    let sender = Ghost(tx);
    let _ = tx.send(value);
    Delivery { value, sender }
}

} // verus!
