//! The bounded queues that carry messages from the registry to a connection,
//! as `tokio::sync::mpsc` provides them.

use crate::message::Message;
use tokio::sync::mpsc::error::TrySendError;
use tokio::sync::mpsc::{Receiver, Sender};
use vstd::prelude::*;

verus! {

#[verifier::external_type_specification]
#[verifier::external_body]
#[verifier::reject_recursive_types(T)]
pub struct ExSender<T>(Sender<T>);

#[verifier::external_type_specification]
#[verifier::external_body]
#[verifier::reject_recursive_types(T)]
pub struct ExReceiver<T>(Receiver<T>);

#[verifier::external_type_specification]
#[verifier::external_body]
#[verifier::reject_recursive_types(T)]
pub struct ExTrySendError<T>(TrySendError<T>);

/// The largest number of messages that one queue can be made to hold.
pub open spec fn max_queue_capacity() -> nat {
    (usize::MAX / 8) as nat
}

/// Calls `tokio::sync::mpsc::channel`, which makes a new queue of the given
/// capacity and hands out its two ends.
///
/// Trusted: nothing is claimed of the two ends. `channel` panics on a capacity
/// of zero or above `usize::MAX >> 3`, which the precondition rules out.
#[verifier::external_body]
pub(crate) fn open_queue(capacity: usize) -> (ends: (Sender<Message>, Receiver<Message>))
    requires
        0 < capacity <= max_queue_capacity(),
{
    tokio::sync::mpsc::channel(capacity)
}

/// Calls `Sender::try_send`, which puts the message in the queue without
/// waiting, or gives it back where the queue is full or its receiving end is
/// gone.
///
/// Trusted: nothing is claimed of the outcome, which depends on what the
/// receiving side has done so far.
#[verifier::external_body]
pub(crate) fn offer(outbox: &Sender<Message>, msg: Message) -> (outcome: Result<
    (),
    TrySendError<Message>,
>) {
    outbox.try_send(msg)
}

/// Calls `Sender::clone`, which makes another handle to the same queue.
///
/// Trusted: nothing is claimed of the new handle.
#[verifier::external_body]
pub(crate) fn share(outbox: &Sender<Message>) -> (handle: Sender<Message>) {
    outbox.clone()
}

} // verus!
