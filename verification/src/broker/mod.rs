//! The dataplane of one node: queues between threads, the per-connection
//! framing, and the sequencing rules of sessions.

pub mod chan;
pub mod dispatch;
pub mod message;
pub mod session;
pub mod socket;

use vstd::prelude::*;

verus! {

/// The sequence number that a shard gives every PUBLISH that enters it from a
/// client; it starts at 1 and is never used twice.
pub type InpSeqno = u64;

/// The sequence number that a session gives every PUBLISH that it queues
/// toward its client; it starts at 1.
pub type OutSeqno = u64;

/// What became of a batch on a queue: the values are the ones that are handed
/// back.
#[derive(Debug, Clone, PartialEq, Eq)]
pub enum QueueStatus<T> {
    /// The whole batch went through, or a full batch was taken.
    Done(Vec<T>),
    /// The queue is full, or it is drained.
    Block(Vec<T>),
    /// The other end is gone.
    Disconnected(Vec<T>),
}

impl<T> QueueStatus<T> {
    /// The values that the status carries.
    pub open spec fn values(self) -> Seq<T> {
        match self {
            QueueStatus::Done(v) => v@,
            QueueStatus::Block(v) => v@,
            QueueStatus::Disconnected(v) => v@,
        }
    }

    /// The status without its values: 0 for `Done`, 1 for `Block`, 2 for
    /// `Disconnected`.
    pub open spec fn kind(self) -> int {
        match self {
            QueueStatus::Done(_) => 0,
            QueueStatus::Block(_) => 1,
            QueueStatus::Disconnected(_) => 2,
        }
    }

    /// Takes the values out and leaves the status with none.
    pub fn take_values(&mut self) -> (vals: Vec<T>)
        ensures
            vals@ == old(self).values(),
            final(self).values().len() == 0,
            final(self).kind() == old(self).kind(),
    {
        let mut out: Vec<T> = Vec::new();
        match self {
            QueueStatus::Done(v) => {
                std::mem::swap(v, &mut out);
            },
            QueueStatus::Block(v) => {
                std::mem::swap(v, &mut out);
            },
            QueueStatus::Disconnected(v) => {
                std::mem::swap(v, &mut out);
            },
        }
        out
    }

    pub fn is_ok(&self) -> (b: bool)
        ensures
            b == (self.kind() == 0),
    {
        match self {
            QueueStatus::Done(_) => true,
            _ => false,
        }
    }

    pub fn is_block(&self) -> (b: bool)
        ensures
            b == (self.kind() == 1),
    {
        match self {
            QueueStatus::Block(_) => true,
            _ => false,
        }
    }

    pub fn is_disconnected(&self) -> (b: bool)
        ensures
            b == (self.kind() == 2),
    {
        match self {
            QueueStatus::Disconnected(_) => true,
            _ => false,
        }
    }
}

} // verus!
