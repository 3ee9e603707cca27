//! The bounded queues that carry updates to observers. They are `tokio`'s;
//! this module declares their two halves and the few operations on them that
//! the registry needs.

use vstd::prelude::*;
use crate::query::EventCounterStatus;

verus! {

/// The sending half of a bounded `tokio` queue: `tokio::sync::mpsc::Sender`.
#[verifier::external_type_specification]
#[verifier::external_body]
#[verifier::reject_recursive_types(T)]
pub struct ExSender<T>(tokio::sync::mpsc::Sender<T>);

/// The receiving half of a bounded `tokio` queue:
/// `tokio::sync::mpsc::Receiver`.
#[verifier::external_type_specification]
#[verifier::external_body]
#[verifier::reject_recursive_types(T)]
pub struct ExReceiver<T>(tokio::sync::mpsc::Receiver<T>);

/// What became of one update offered to one queue.
#[derive(Clone, Copy, Debug, PartialEq, Eq, Structural)]
pub enum Delivery {
    /// The update is in the queue.
    Delivered,
    /// The queue was full. The update was dropped for this observer.
    Full,
    /// The receiving half is closed or gone. The update was dropped.
    Closed,
}

/// Makes a queue through `tokio::sync::mpsc::channel`, which panics on a
/// capacity of zero or above an eighth of the address space. Nothing is
/// claimed of the two halves.
#[verifier::external_body]
pub(crate) fn open_queue(buffer: usize) -> (halves: (
    tokio::sync::mpsc::Sender<EventCounterStatus>,
    tokio::sync::mpsc::Receiver<EventCounterStatus>,
))
    requires
        0 < buffer <= usize::MAX / 8,
{
    tokio::sync::mpsc::channel(buffer)
}

/// Offers an update to a queue through `Sender::try_send`, which never waits.
/// Which of the three outcomes comes back depends on what the other half has
/// done, so nothing is claimed of it.
#[verifier::external_body]
pub(crate) fn offer(
    sender: &tokio::sync::mpsc::Sender<EventCounterStatus>,
    update: EventCounterStatus,
) -> (outcome: Delivery) {
    match sender.try_send(update) {
        Ok(()) => Delivery::Delivered,
        Err(tokio::sync::mpsc::error::TrySendError::Full(_)) => Delivery::Full,
        Err(tokio::sync::mpsc::error::TrySendError::Closed(_)) => Delivery::Closed,
    }
}

/// Takes the oldest update out of a queue through `Receiver::try_recv`, which
/// never waits. `None` stands for both an empty and a disconnected queue.
/// What comes back depends on what was sent, so nothing is claimed of it.
#[verifier::external_body]
pub(crate) fn poll(receiver: &mut tokio::sync::mpsc::Receiver<EventCounterStatus>) -> (update:
    Option<EventCounterStatus>) {
    receiver.try_recv().ok()
}

/// Closes the receiving half through `Receiver::close`: later offers are
/// answered with [`Delivery::Closed`], and what is in the queue can still be
/// taken out.
#[verifier::external_body]
pub(crate) fn shut(receiver: &mut tokio::sync::mpsc::Receiver<EventCounterStatus>) {
    receiver.close()
}

} // verus!
