//! Bounded channels of the standard library and the waker of the poller, as
//! far as the queues use them.

use vstd::prelude::*;
use std::sync::mpsc::{Receiver, SyncSender};
use std::sync::Arc;

verus! {

/// The sending half of a bounded channel.
#[verifier::external_type_specification]
#[verifier::external_body]
#[verifier::reject_recursive_types(T)]
pub struct ExSyncSender<T>(SyncSender<T>);

/// The receiving half of a channel.
#[verifier::external_type_specification]
#[verifier::external_body]
#[verifier::reject_recursive_types(T)]
pub struct ExReceiver<T>(Receiver<T>);

/// The handle that breaks a thread out of its poll.
#[verifier::external_type_specification]
#[verifier::external_body]
pub struct ExWaker(mio::Waker);

/// What became of one value offered to a bounded channel.
pub enum Offered<T> {
    /// The channel took it.
    Taken,
    /// The channel is full; the value comes back.
    Full(T),
    /// The receiver is gone; the value comes back.
    Disconnected(T),
}

/// What a channel had to give.
pub enum Polled<T> {
    /// The value at the head of the channel.
    Item(T),
    /// Nothing is queued now.
    Empty,
    /// Nothing is queued and every sender is gone.
    Disconnected,
}

/// `SyncSender::try_send`: whether the channel takes the value depends on the
/// moment; where it does not, the value that comes back is the one offered.
#[verifier::external_body]
pub(crate) fn offer<T>(tx: &SyncSender<T>, value: T) -> (res: Offered<T>)
    ensures
        res matches Offered::Full(v) ==> v == value,
        res matches Offered::Disconnected(v) ==> v == value,
{
    match tx.try_send(value) {
        Ok(()) => Offered::Taken,
        Err(std::sync::mpsc::TrySendError::Full(v)) => Offered::Full(v),
        Err(std::sync::mpsc::TrySendError::Disconnected(v)) => Offered::Disconnected(v),
    }
}

/// `Receiver::try_recv`: what comes depends on the moment, so nothing is
/// said of it.
#[verifier::external_body]
pub(crate) fn poll<T>(rx: &Receiver<T>) -> Polled<T> {
    match rx.try_recv() {
        Ok(v) => Polled::Item(v),
        Err(std::sync::mpsc::TryRecvError::Empty) => Polled::Empty,
        Err(std::sync::mpsc::TryRecvError::Disconnected) => Polled::Disconnected,
    }
}

/// `std::sync::mpsc::sync_channel`: a bounded channel that holds up to `size`
/// values.
#[verifier::external_body]
pub(crate) fn bounded<T>(size: usize) -> (SyncSender<T>, Receiver<T>) {
    std::sync::mpsc::sync_channel(size)
}

/// `SyncSender::clone`: another handle on the same channel.
#[verifier::external_body]
pub(crate) fn another<T>(tx: &SyncSender<T>) -> SyncSender<T> {
    tx.clone()
}

/// `mio::Waker::wake`: signals the thread that polls; returns whether the
/// signal went out.
#[verifier::external_body]
pub(crate) fn wake(waker: &Arc<mio::Waker>) -> bool
    opens_invariants none
    no_unwind
{
    waker.wake().is_ok()
}

} // verus!
