//! Messages between the shards of one node, and the queues that carry them.

use vstd::prelude::*;
use std::sync::mpsc::{Receiver, SyncSender};
use std::sync::Arc;
use crate::broker::chan::{another, bounded, offer, poll, wake, Offered, Polled};
use crate::broker::{InpSeqno, OutSeqno, QueueStatus};
use crate::v5::packet::Packet;
use crate::broker::session::Session;
use crate::v5::publish::{copy_string, Publish};
use crate::v5::{ClientID, PacketID, QoS, TopicFilter};

verus! {

/// The value `v` with its items in reverse order.
pub fn reversed<T>(v: Vec<T>) -> (out: Vec<T>)
    ensures
        out@ == v@.reverse(),
{
    let mut v = v;
    let ghost orig = v@;
    let mut out: Vec<T> = Vec::new();
    while v.len() > 0
        invariant
            v@.len() <= orig.len(),
            v@ == orig.take(v@.len() as int),
            out@.len() == orig.len() - v@.len(),
            forall|k: int| 0 <= k < out@.len() ==> out@[k] == orig[orig.len() - 1 - k],
        decreases v@.len(),
    {
        match v.pop() {
            Some(x) => {
                out.push(x);
            },
            None => {},
        }
    }
    assert(out@ =~= orig.reverse());
    out
}

/// What follows the answer of the channel to one value that was offered to
/// it, where `behind` holds the values that wait behind that one, the last of
/// them first. A value that was taken lets the sending go on, and `behind`
/// comes back as it is. A value that was not taken ends the sending: it comes
/// back at the head of what is left, in the order of the batch, as `Block`
/// from a channel that is full and as `Disconnected` from one whose receiver
/// is gone.
pub fn after_offer<T>(answer: Offered<T>, behind: Vec<T>) -> (res: Result<Vec<T>, QueueStatus<T>>)
    ensures
        match answer {
            Offered::Taken => res == Ok::<Vec<T>, QueueStatus<T>>(behind),
            Offered::Full(v) => res matches Err(QueueStatus::Block(left)) && left@ == seq![v]
                + behind@.reverse(),
            Offered::Disconnected(v) => res matches Err(QueueStatus::Disconnected(left)) && left@
                == seq![v] + behind@.reverse(),
        },
{
    match answer {
        Offered::Taken => Ok(behind),
        Offered::Full(v) => {
            let mut behind = behind;
            let ghost before = behind@;
            behind.push(v);
            let left = reversed(behind);
            assert(left@ =~= seq![v] + before.reverse());
            Err(QueueStatus::Block(left))
        },
        Offered::Disconnected(v) => {
            let mut behind = behind;
            let ghost before = behind@;
            behind.push(v);
            let left = reversed(behind);
            assert(left@ =~= seq![v] + before.reverse());
            Err(QueueStatus::Disconnected(left))
        },
    }
}

/// Offers the values of `batch` to `tx` in order, until one is not taken.
/// Returns what was not taken, in order, and how many were taken: `Done`
/// with nothing once every value was taken, else what `after_offer` makes of
/// the first answer that was not `Taken`.
pub fn send_batch<T>(tx: &SyncSender<T>, batch: Vec<T>) -> (res: (QueueStatus<T>, usize))
    ensures
        res.1 <= batch@.len(),
        res.0.values() == batch@.subrange(res.1 as int, batch@.len() as int),
        res.0.kind() == 0 ==> res.1 == batch@.len(),
        res.0.kind() != 0 ==> res.1 < batch@.len(),
{
    let ghost orig = batch@;
    let total: usize = batch.len();
    let mut rest = reversed(batch);
    let mut sent: usize = 0;
    loop
        invariant
            orig == batch@,
            orig.len() == total,
            sent <= orig.len(),
            rest@.len() == orig.len() - sent,
            rest@ == orig.subrange(sent as int, orig.len() as int).reverse(),
        decreases orig.len() - sent,
    {
        match rest.pop() {
            None => {
                let done: Vec<T> = Vec::new();
                assert(done@ =~= orig.subrange(sent as int, orig.len() as int));
                return (QueueStatus::Done(done), sent);
            },
            Some(value) => {
                assert(value == orig[sent as int]);
                assert(rest@ =~= orig.subrange(sent + 1, orig.len() as int).reverse());
                assert(seq![value] + rest@.reverse() =~= orig.subrange(
                    sent as int,
                    orig.len() as int,
                ));
                match after_offer(offer(tx, value), rest) {
                    Ok(behind) => {
                        rest = behind;
                        sent += 1;
                    },
                    Err(status) => {
                        return (status, sent);
                    },
                }
            },
        }
    }
}

/// What follows the answer of the channel to one poll, where `items` holds
/// what was taken before and the batch is not full. A value joins the batch,
/// which is returned as `Done` when the value fills it, and else is handed
/// back for the next poll. A channel that is empty ends the taking with
/// `Block`, one whose senders are all gone with `Disconnected`, each with
/// what was taken before.
pub fn after_poll<T>(items: Vec<T>, answer: Polled<T>, batch_size: usize) -> (res: Result<
    Vec<T>,
    QueueStatus<T>,
>)
    requires
        items@.len() < batch_size,
    ensures
        match answer {
            Polled::Item(v) => if items@.len() + 1 == batch_size {
                res matches Err(QueueStatus::Done(all)) && all@ == items@.push(v)
            } else {
                res matches Ok(more) && more@ == items@.push(v)
            },
            Polled::Empty => res == Err::<Vec<T>, QueueStatus<T>>(QueueStatus::Block(items)),
            Polled::Disconnected => res == Err::<Vec<T>, QueueStatus<T>>(
                QueueStatus::Disconnected(items),
            ),
        },
{
    match answer {
        Polled::Item(v) => {
            let mut items = items;
            items.push(v);
            if items.len() == batch_size {
                Err(QueueStatus::Done(items))
            } else {
                Ok(items)
            }
        },
        Polled::Empty => Err(QueueStatus::Block(items)),
        Polled::Disconnected => Err(QueueStatus::Disconnected(items)),
    }
}

/// Takes what `rx` has to give, up to `batch_size` values, one poll after the
/// other, until `after_poll` ends the taking: `Done` with a full batch,
/// `Block` when the queue ran dry first, `Disconnected` when it ran dry and
/// every sender is gone. A batch size of 0 takes nothing.
pub fn recv_batch<T>(rx: &Receiver<T>, batch_size: usize) -> (res: QueueStatus<T>)
    ensures
        res.kind() == 0 ==> res.values().len() == batch_size,
        res.kind() != 0 ==> res.values().len() < batch_size,
        batch_size == 0 ==> res.kind() == 0,
{
    let mut items: Vec<T> = Vec::new();
    if batch_size == 0 {
        return QueueStatus::Done(items);
    }
    loop
        invariant
            items@.len() < batch_size,
        decreases batch_size - items@.len(),
    {
        match after_poll(items, poll(rx), batch_size) {
            Ok(more) => {
                items = more;
            },
            Err(status) => {
                return status;
            },
        }
    }
}

/// One subscription that a PUBLISH matched.
#[derive(Clone, Eq, PartialEq, Debug)]
pub struct Subscription {
    pub topic_filter: TopicFilter,
    pub client_id: ClientID,
    pub shard_id: u32,
    pub subscription_id: Option<u32>,
    pub qos: QoS,
    pub no_local: bool,
    pub retain_as_published: bool,
}

/// Message is a unit of communication between shards hosted on the same node.
#[derive(Clone, Eq, PartialEq, Debug)]
pub enum Message {
    /// Packets that sessions make locally and send to their clients; they
    /// do not cross a session boundary.
    ///
    /// CONNACK, PUBLISH-ack, SUBACK, UNSUBACK, PINGRESP, AUTH packets.
    ClientAck { packet: Packet },
    /// PUBLISH packets received from clients and routed to other local
    /// sessions.
    Routed {
        /// The client that published.
        src_client_id: ClientID,
        /// The shard that hosts the publishing client.
        src_shard_id: u32,
        /// The sequence number that the publishing shard gave the packet.
        inp_seqno: InpSeqno,
        /// The packet identifier that the publishing client gave, for quality
        /// of service above 0.
        packet_id: Option<PacketID>,
        /// The packet as it was received.
        publish: Publish,
        subscriptions: Vec<Subscription>,
    },
    /// Message that a shard publishes to the other local shards from time to
    /// time: everything up to `last_acked` from the receiving shard has been
    /// delivered.
    LocalAck { shard_id: u32, last_acked: InpSeqno },
    /// A PUBLISH queued toward the client of this session.
    Packet { out_seqno: OutSeqno, publish: Publish },
}

impl Message {
    /// Whether the message can go to a socket: it is a `ClientAck` or a
    /// `Packet`.
    pub open spec fn carries_packet(self) -> bool {
        self is ClientAck || self is Packet
    }

    /// Create a new Message::ClientAck value.
    pub fn new_client_ack(packet: Packet) -> (m: Message)
        ensures
            m == (Message::ClientAck { packet }),
    {
        Message::ClientAck { packet }
    }

    /// Create a new Message::Routed value, for a PUBLISH that the client of the
    /// session `sess` sent.
    pub fn new_routed(
        sess: &Session,
        inp_seqno: InpSeqno,
        subscriptions: Vec<Subscription>,
        publish: Publish,
    ) -> (m: Message)
        ensures
            m matches Message::Routed {
                src_client_id,
                src_shard_id,
                inp_seqno: n,
                packet_id,
                publish: p,
                subscriptions: subs,
            } && src_client_id@ == sess.client_id@ && src_shard_id == sess.shard_id && n
                == inp_seqno && packet_id == publish.packet_id && p == publish && subs
                == subscriptions,
    {
        Message::Routed {
            src_client_id: ClientID(copy_string(&sess.as_client_id().0)),
            src_shard_id: sess.to_shard_id(),
            inp_seqno,
            packet_id: publish.packet_id,
            publish,
            subscriptions,
        }
    }

    /// Create a new Message::Packet value.
    pub fn new_packet(out_seqno: OutSeqno, publish: Publish) -> (m: Message)
        ensures
            m == (Message::Packet { out_seqno, publish }),
    {
        Message::Packet { out_seqno, publish }
    }

    /// Gives a PUBLISH that is queued toward the client its sequence number
    /// and its packet identifier. Only a `Packet` carries them.
    pub fn set_seqno(&mut self, new_seqno: OutSeqno, new_packet_id: PacketID)
        requires
            *old(self) is Packet,
        ensures
            *final(self) == (Message::Packet {
                out_seqno: new_seqno,
                publish: Publish {
                    packet_id: Some(new_packet_id),
                    ..old(self)->Packet_publish
                },
            }),
    {
        let mut tmp = Message::LocalAck { shard_id: 0, last_acked: 0 };
        std::mem::swap(self, &mut tmp);
        match tmp {
            Message::Packet { publish, .. } => {
                let mut publish = publish;
                publish.packet_id = Some(new_packet_id);
                *self = Message::Packet { out_seqno: new_seqno, publish };
            },
            _ => unreached(),
        }
    }

    /// Return the packet within this message. Only a `ClientAck` and a `Packet`
    /// hold one; the other two never reach a socket.
    pub fn into_packet(self) -> (p: Packet)
        requires
            self.carries_packet(),
        ensures
            self matches Message::ClientAck { packet } ==> p == packet,
            self matches Message::Packet { publish, .. } ==> p == Packet::Publish(publish),
    {
        match self {
            Message::ClientAck { packet } => packet,
            Message::Packet { publish, .. } => Packet::Publish(publish),
            _ => unreached(),
        }
    }
}

/// Type implement the tx-handle for a message-queue.
pub struct MsgTx {
    /// The shard that the queue leads to.
    shard_id: u32,
    /// The incoming message queue of that shard.
    tx: SyncSender<Message>,
    /// The waker of the thread that receives.
    waker: Arc<mio::Waker>,
    /// How many messages this handle has sent.
    count: usize,
}

impl MsgTx {
    /// How many messages this handle has sent.
    pub closed spec fn spec_count(&self) -> usize {
        self.count
    }

    /// The shard that the queue leads to.
    pub closed spec fn spec_shard_id(&self) -> u32 {
        self.shard_id
    }

    /// Offers `msgs` to the queue in order, until one is not taken. What was
    /// not taken comes back in order, the one that failed first: with `Block`
    /// when the queue was full, with `Disconnected` when the receiver is gone.
    /// `Done` carries nothing: everything was taken.
    pub fn try_sends(&mut self, msgs: Vec<Message>) -> (res: QueueStatus<Message>)
        requires
            old(self).spec_count() + msgs@.len() <= usize::MAX,
        ensures
            final(self).spec_shard_id() == old(self).spec_shard_id(),
            res.values().len() <= msgs@.len(),
            final(self).spec_count() == old(self).spec_count() + (msgs@.len() - res.values().len()),
            res.values() == msgs@.subrange(
                msgs@.len() - res.values().len(),
                msgs@.len() as int,
            ),
            res.kind() == 0 <==> res.values().len() == 0,
    {
        let (status, sent) = send_batch(&self.tx, msgs);
        self.count = self.count + sent;
        status
    }

    #[verifier::when_used_as_spec(spec_count)]
    pub fn count(&self) -> (n: usize)
        ensures
            n == self.spec_count(),
    {
        self.count
    }

    /// Whether dropping this handle wakes the receiving thread: it does when
    /// the handle has sent anything.
    pub fn wakes_on_drop(&self) -> (b: bool)
        ensures
            b == (self.spec_count() > 0),
    {
        self.count > 0
    }

    /// Another handle on the same queue, which counts its own sends from 0 and
    /// wakes the receiver on its own when dropped.
    pub fn to_tx(&self) -> (tx: MsgTx)
        ensures
            tx.spec_count() == 0,
            tx.spec_shard_id() == self.spec_shard_id(),
    {
        MsgTx {
            shard_id: self.shard_id,
            tx: another(&self.tx),
            waker: Arc::clone(&self.waker),
            count: 0,
        }
    }
}

impl Drop for MsgTx {
    fn drop(&mut self)
        opens_invariants none
        no_unwind
    {
        if self.count > 0 {
            let _ = wake(&self.waker);
        }
    }
}

/// Type implement the rx-handle for a message-queue.
pub struct MsgRx {
    /// The shard that owns the queue.
    shard_id: u32,
    msg_batch_size: usize,
    rx: Receiver<Message>,
}

impl MsgRx {
    /// How many messages one call of `try_recvs` takes at most.
    pub closed spec fn spec_batch_size(&self) -> usize {
        self.msg_batch_size
    }

    /// Takes up to a batch of messages off the queue: `Done` with a full batch,
    /// `Block` with fewer when the queue ran dry, `Disconnected` with fewer when
    /// it ran dry and every sender is gone.
    pub fn try_recvs(&self) -> (res: QueueStatus<Message>)
        ensures
            res.kind() == 0 ==> res.values().len() == self.spec_batch_size(),
            res.kind() != 0 ==> res.values().len() < self.spec_batch_size(),
    {
        recv_batch(&self.rx, self.msg_batch_size)
    }
}

/// Create a message-queue for shard `shard_id` that can hold upto `size`
/// messages.
///
/// `waker` is attached to the thread receiving the messages from the queue.
/// When a MsgTx that has sent is dropped, that thread is woken up using `waker`.
pub fn msg_channel(shard_id: u32, size: usize, waker: Arc<mio::Waker>) -> (res: (MsgTx, MsgRx))
    ensures
        res.0.spec_count() == 0,
        res.0.spec_shard_id() == shard_id,
        res.1.spec_batch_size() == size,
{
    let (tx, rx) = bounded(size);
    let msg_tx = MsgTx { shard_id, tx, waker, count: 0 };
    let msg_rx = MsgRx { shard_id, msg_batch_size: size, rx };
    (msg_tx, msg_rx)
}

} // verus!
