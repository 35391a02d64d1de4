//! The packet queues between a connection and its shard, and what a
//! connection decides while it reads and writes packets.

use vstd::prelude::*;
use vstd::utf8::*;
use std::collections::VecDeque;
use std::sync::mpsc::{Receiver, SyncSender};
use std::sync::Arc;
use crate::broker::chan::{another, bounded, wake};
use crate::broker::message::{recv_batch, reversed, send_batch};
use crate::broker::QueueStatus;
use crate::error::Error;
use crate::frame::{MQTTRead, MQTTWrite};
use crate::v5::packet::{Packet, PacketView};
use crate::wire::{put_raw, str_bytes, string_from_utf8};

verus! {

/// The status of a batch of packets.
pub type QueuePkt = QueueStatus<Packet>;

/// Type implement the tx-handle for a packet-queue.
pub struct PktTx {
    /// The shard, or its I/O reactor, that the queue leads to.
    miot_id: u32,
    /// The incoming packet queue of that thread.
    tx: SyncSender<Packet>,
    /// The waker of that thread.
    waker: Arc<mio::Waker>,
    /// How many packets this handle has sent.
    count: usize,
}

impl PktTx {
    /// How many packets this handle has sent.
    pub closed spec fn spec_count(&self) -> usize {
        self.count
    }

    /// The shard, or its I/O reactor, that the queue leads to.
    pub closed spec fn spec_miot_id(&self) -> u32 {
        self.miot_id
    }

    /// The waker that this handle signals when it is dropped after it has
    /// sent.
    pub closed spec fn spec_waker(&self) -> Arc<mio::Waker> {
        self.waker
    }

    /// Offers `pkts` to the queue in order, until one is not taken. What was
    /// not taken comes back in order, the one that failed first: with `Block`
    /// when the queue was full, with `Disconnected` when the receiver is gone.
    /// `Done` carries nothing: everything was taken.
    pub fn try_sends(&mut self, _prefix: &str, pkts: Vec<Packet>) -> (res: QueuePkt)
        requires
            old(self).spec_count() + pkts@.len() <= usize::MAX,
        ensures
            final(self).spec_miot_id() == old(self).spec_miot_id(),
            final(self).spec_waker() == old(self).spec_waker(),
            res.values().len() <= pkts@.len(),
            final(self).spec_count() == old(self).spec_count() + (pkts@.len() - res.values().len()),
            res.values() == pkts@.subrange(
                pkts@.len() - res.values().len(),
                pkts@.len() as int,
            ),
            res.kind() == 0 <==> res.values().len() == 0,
    {
        let (status, sent) = send_batch(&self.tx, pkts);
        self.count = self.count + sent;
        status
    }

    #[verifier::when_used_as_spec(spec_count)]
    pub fn count(&self) -> (n: usize)
        ensures
            n == self.spec_count(),
    {
        self.count
    }

    /// Whether dropping this handle wakes the receiving thread: it does when
    /// the handle has sent anything.
    pub fn wakes_on_drop(&self) -> (b: bool)
        ensures
            b == (self.spec_count() > 0),
    {
        self.count > 0
    }

    /// Another handle on the same queue, which counts its own sends from 0 and
    /// wakes the receiver on its own when dropped: it leads to the same thread
    /// and signals the same waker as this one.
    pub fn to_tx(&self) -> (tx: PktTx)
        ensures
            tx.spec_count() == 0,
            tx.spec_miot_id() == self.spec_miot_id(),
            tx.spec_waker() == self.spec_waker(),
    {
        PktTx {
            miot_id: self.miot_id,
            tx: another(&self.tx),
            waker: Arc::clone(&self.waker),
            count: 0,
        }
    }
}

impl Drop for PktTx {
    fn drop(&mut self)
        opens_invariants none
        no_unwind
    {
        if self.count > 0 {
            let _ = wake(&self.waker);
        }
    }
}

/// Type implement the rx-handle for a packet-queue.
pub struct PktRx {
    pkt_batch_size: usize,
    rx: Receiver<Packet>,
}

impl PktRx {
    /// How many packets one call of `try_recvs` takes at most.
    pub closed spec fn spec_batch_size(&self) -> usize {
        self.pkt_batch_size
    }

    /// Takes up to a batch of packets off the queue: `Done` with a full batch,
    /// `Block` with fewer when the queue ran dry, `Disconnected` with fewer when
    /// it ran dry and every sender is gone.
    pub fn try_recvs(&self, _prefix: &str) -> (res: QueuePkt)
        ensures
            res.kind() == 0 ==> res.values().len() == self.spec_batch_size(),
            res.kind() != 0 ==> res.values().len() < self.spec_batch_size(),
    {
        recv_batch(&self.rx, self.pkt_batch_size)
    }
}

/// Create a packet-queue for shard/miot that can hold upto `size` packets.
///
/// `waker` is attached to the thread receiving the packets from the queue.
/// When a PktTx that has sent is dropped, that thread is woken up using `waker`.
pub fn pkt_channel(miot_id: u32, size: usize, waker: Arc<mio::Waker>) -> (res: (PktTx, PktRx))
    ensures
        res.0.spec_count() == 0,
        res.0.spec_miot_id() == miot_id,
        res.0.spec_waker() == waker,
        res.1.spec_batch_size() == size,
{
    let (tx, rx) = bounded(size);
    let pkt_tx = PktTx { miot_id, tx, waker, count: 0 };
    let pkt_rx = PktRx { pkt_batch_size: size, rx };
    (pkt_tx, pkt_rx)
}

/// The decimal digits of `n`, as ASCII.
pub open spec fn decimal(n: nat) -> Seq<u8>
    decreases n,
{
    if n < 10 {
        seq![(48 + n) as u8]
    } else {
        decimal(n / 10).push((48 + n % 10) as u8)
    }
}

/// The text `{ "items": N, "bytes": M }`, as ASCII.
pub open spec fn spec_json(items: nat, bytes: nat) -> Seq<u8> {
    seq![0x7Bu8, 0x20, 0x22, 0x69, 0x74, 0x65, 0x6D, 0x73, 0x22, 0x3A, 0x20] + decimal(items)
        + seq![0x2Cu8, 0x20, 0x22, 0x62, 0x79, 0x74, 0x65, 0x73, 0x22, 0x3A, 0x20] + decimal(bytes)
        + seq![0x20u8, 0x7D]
}

/// Every byte is ASCII.
pub open spec fn all_ascii(b: Seq<u8>) -> bool {
    forall|k: int| 0 <= k < b.len() ==> #[trigger] b[k] < 128
}

/// ASCII is UTF-8.
pub proof fn lemma_ascii_is_utf8(b: Seq<u8>)
    requires
        all_ascii(b),
    ensures
        valid_utf8(b),
    decreases b.len(),
{
    if b.len() > 0 {
        assert(b[0] < 128);
        let rest = pop_first_scalar(b);
        assert(rest =~= b.subrange(1, b.len() as int));
        assert forall|k: int| 0 <= k < rest.len() implies #[trigger] rest[k] < 128 by {
            assert(rest[k] == b[k + 1]);
        }
        lemma_ascii_is_utf8(rest);
    }
}

/// The decimal digits of a number are ASCII.
pub proof fn lemma_decimal_ascii(n: nat)
    ensures
        all_ascii(decimal(n)),
        decimal(n).len() >= 1,
    decreases n,
{
    if n >= 10 {
        lemma_decimal_ascii(n / 10);
    }
}

/// Appends the decimal digits of `n`.
pub fn put_decimal(data: &mut Vec<u8>, n: usize)
    ensures
        final(data)@ == old(data)@ + decimal(n as nat),
    decreases n,
{
    if n < 10 {
        data.push(48 + n as u8);
        assert(data@ =~= old(data)@ + decimal(n as nat));
    } else {
        put_decimal(data, n / 10);
        data.push(48 + (n % 10) as u8);
        assert(data@ =~= old(data)@ + decimal(n as nat));
    }
}

/// Counts of what one turn of writing moved.
#[derive(Clone, Copy, Debug, PartialEq, Eq, Structural)]
pub struct Stats {
    pub items: usize,
    pub bytes: usize,
}

impl Default for Stats {
    fn default() -> (s: Stats)
        ensures
            s.items == 0,
            s.bytes == 0,
    {
        Stats { items: 0, bytes: 0 }
    }
}

impl Stats {
    /// Takes over the counts of `other`.
    pub fn update(&mut self, other: &Stats)
        ensures
            *final(self) == *other,
    {
        self.items = other.items;
        self.bytes = other.bytes;
    }

    /// The counts as the text `{ "items": N, "bytes": M }`.
    #[verifier::rlimit(40)]
    pub fn to_json(&self) -> (s: String)
        ensures
            str_bytes(s@) == spec_json(self.items as nat, self.bytes as nat),
    {
        let mut data: Vec<u8> = Vec::new();
        let open: [u8; 11] = [0x7B, 0x20, 0x22, 0x69, 0x74, 0x65, 0x6D, 0x73, 0x22, 0x3A, 0x20];
        let mid: [u8; 11] = [0x2C, 0x20, 0x22, 0x62, 0x79, 0x74, 0x65, 0x73, 0x22, 0x3A, 0x20];
        let close: [u8; 2] = [0x20, 0x7D];
        put_raw(&mut data, open.as_slice());
        put_decimal(&mut data, self.items);
        put_raw(&mut data, mid.as_slice());
        put_decimal(&mut data, self.bytes);
        put_raw(&mut data, close.as_slice());
        let ghost want = spec_json(self.items as nat, self.bytes as nat);
        proof {
            assert(open@ =~= seq![0x7Bu8, 0x20, 0x22, 0x69, 0x74, 0x65, 0x6D, 0x73, 0x22, 0x3A, 0x20]);
            assert(mid@ =~= seq![0x2Cu8, 0x20, 0x22, 0x62, 0x79, 0x74, 0x65, 0x73, 0x22, 0x3A, 0x20]);
            assert(close@ =~= seq![0x20u8, 0x7D]);
            assert(data@ =~= want);
            lemma_decimal_ascii(self.items as nat);
            lemma_decimal_ascii(self.bytes as nat);
            assert(all_ascii(want));
            lemma_ascii_is_utf8(want);
            decode_utf8_encode_utf8(want);
        }
        match string_from_utf8(data) {
            Some(s) => s,
            None => unreached(),
        }
    }
}

/// The moment, in seconds, after which a partial read or write is given up, if
/// one is under way.
#[derive(Clone, Copy, Debug, PartialEq, Eq, Structural)]
pub struct Deadline {
    pub at: Option<u64>,
}

impl Deadline {
    /// No deadline runs.
    pub fn new() -> (d: Deadline)
        ensures
            d.at is None,
    {
        Deadline { at: None }
    }

    /// What `arm` makes of a deadline.
    pub open spec fn spec_arm(self, retry: bool, now: u64, timeout: u64) -> Deadline {
        if retry {
            match self.at {
                Some(_) => self,
                None => Deadline {
                    at: Some(
                        if now + timeout > u64::MAX {
                            u64::MAX
                        } else {
                            (now + timeout) as u64
                        },
                    ),
                },
            }
        } else {
            Deadline { at: None }
        }
    }

    /// Whether the deadline has passed at the moment `now`.
    pub fn elapsed(&self, now: u64) -> (b: bool)
        ensures
            b == (self.at matches Some(t) && now > t),
    {
        match self.at {
            Some(t) => now > t,
            None => false,
        }
    }

    /// With `retry`, starts a deadline `timeout` seconds from `now` unless one
    /// runs already; without, clears the deadline.
    pub fn arm(&mut self, retry: bool, now: u64, timeout: u64)
        ensures
            *final(self) == old(self).spec_arm(retry, now, timeout),
    {
        if retry {
            if self.at.is_none() {
                let at: u64 = if timeout > u64::MAX - now {
                    u64::MAX
                } else {
                    now + timeout
                };
                self.at = Some(at);
            }
        } else {
            self.at = None;
        }
    }
}

/// A deadline that runs is not pushed out by another partial read or write;
/// one that starts lies `timeout` seconds after `now`, where that moment can
/// be counted, and at the last moment that can be counted where it cannot;
/// and without `retry` no deadline runs.
pub proof fn law_deadline(d: Deadline, now: u64, timeout: u64)
    ensures
        d.at is Some ==> d.spec_arm(true, now, timeout) == d,
        d.at is None && now + timeout <= u64::MAX ==> d.spec_arm(true, now, timeout).at == Some(
            (now + timeout) as u64,
        ),
        d.at is None && now + timeout > u64::MAX ==> d.spec_arm(true, now, timeout).at == Some(
            u64::MAX,
        ),
        d.spec_arm(false, now, timeout).at is None,
{
}

/// Moves every item of `q` into a vector, in order.
pub fn drain_deque<T>(q: &mut VecDeque<T>) -> (out: Vec<T>)
    ensures
        out@ == old(q)@,
        final(q)@.len() == 0,
{
    let mut out: Vec<T> = Vec::new();
    loop
        invariant
            out@ + q@ == old(q)@,
        decreases q@.len(),
    {
        let ghost before = q@;
        match q.pop_front() {
            Some(x) => {
                out.push(x);
                assert(out@ + q@ =~= old(q)@) by {
                    assert(before =~= seq![x] + q@);
                }
            },
            None => {
                assert(out@ =~= out@ + q@);
                return out;
            },
        }
    }
}

/// Moves every item of `v` to the back of `q`, in order.
pub fn extend_deque<T>(q: &mut VecDeque<T>, v: Vec<T>)
    ensures
        final(q)@ == old(q)@ + v@,
{
    let ghost orig = v@;
    let mut rest = reversed(v);
    let ghost mut done: int = 0;
    assert(q@ =~= old(q)@ + orig.take(0));
    loop
        invariant
            orig == v@,
            0 <= done <= orig.len(),
            rest@.len() == orig.len() - done,
            rest@ == orig.subrange(done, orig.len() as int).reverse(),
            q@ == old(q)@ + orig.take(done),
        decreases orig.len() - done,
    {
        match rest.pop() {
            Some(x) => {
                assert(x == orig[done]);
                q.push_back(x);
                proof {
                    assert(q@ =~= old(q)@ + orig.take(done + 1));
                    assert(rest@ =~= orig.subrange(done + 1, orig.len() as int).reverse());
                    done = done + 1;
                }
            },
            None => {
                assert(orig.take(done) =~= orig);
                return ;
            },
        }
    }
}

/// What a connection does next while it reads packets.
#[derive(Clone, Copy, Debug, PartialEq, Eq, Structural)]
pub enum ReadStep {
    /// Read another packet.
    Continue,
    /// Hand what has been read to the shard, and stop for this turn.
    Flush,
    /// The connection is gone and nothing is left to hand on.
    Disconnected,
}

/// The reading half of a connection.
pub struct Source {
    pub pr: MQTTRead,
    /// Runs while a packet is read only in part.
    pub timeout: Deadline,
    pub session_tx: PktTx,
    /// All incoming MQTT packets on this socket first land here.
    pub packets: VecDeque<Packet>,
}

impl Source {
    pub open spec fn wf(self) -> bool {
        self.pr.wf()
    }

    /// What `after_read` answers, without the packet.
    pub open spec fn read_outcome(self, now: u64) -> int {
        if self.pr is Fin {
            0
        } else if self.timeout.at matches Some(t) && now > t {
            2
        } else {
            1
        }
    }

    /// Whether the deadline for the packet that is being read has passed.
    pub fn read_elapsed(&self, now: u64) -> (b: bool)
        ensures
            b == (self.timeout.at matches Some(t) && now > t),
    {
        self.timeout.elapsed(now)
    }

    /// With `retry`, starts the read deadline unless it runs; without, clears
    /// it.
    pub fn set_read_timeout(&mut self, retry: bool, now: u64, timeout: u64)
        ensures
            final(self).session_tx == old(self).session_tx,
            final(self).timeout == old(self).timeout.spec_arm(retry, now, timeout),
            final(self).pr == old(self).pr,
            final(self).packets == old(self).packets,
    {
        self.timeout.arm(retry, now, timeout);
    }

    /// Hands the packets that have been read to the shard, in order, as far as
    /// its queue takes them; what is not taken stays, in order. The status
    /// carries no packets: `Done` says that all went through.
    pub fn send_upstream(&mut self, prefix: &str) -> (res: QueuePkt)
        ensures
            final(self).session_tx == old(self).session_tx,
            res.values().len() == 0,
            final(self).packets@.len() <= old(self).packets@.len(),
            final(self).packets@ == old(self).packets@.subrange(
                old(self).packets@.len() - final(self).packets@.len(),
                old(self).packets@.len() as int,
            ),
            res.kind() == 0 <==> final(self).packets@.len() == 0,
            final(self).pr == old(self).pr,
            final(self).timeout == old(self).timeout,
    {
        let mut session_tx = self.session_tx.to_tx();
        let pkts = drain_deque(&mut self.packets);
        let total: usize = pkts.len();
        let mut status = session_tx.try_sends(prefix, pkts);
        let left = status.take_values();
        extend_deque(&mut self.packets, left);
        assert(self.packets@ =~= left@);
        status
    }

    /// What the connection makes of the state that a read has left.
    ///
    /// With a complete packet, the deadline is cleared, the packet is parsed and
    /// returned with `Done`, and the state is ready for the next packet; a
    /// packet that does not parse is the error. With an incomplete packet, the
    /// answer is `Block` while the deadline has not passed, and the deadline
    /// starts if it does not run; once it has passed, the deadline is cleared
    /// and the answer is `Disconnected`.
    #[verifier::rlimit(40)]
    pub fn after_read(&mut self, now: u64, timeout: u64) -> (res: Result<QueuePkt, Error>)
        requires
            old(self).wf(),
        ensures
            final(self).session_tx == old(self).session_tx,
            final(self).wf(),
            final(self).packets == old(self).packets,
            if old(self).read_outcome(now) == 0 {
                    &&& final(self).timeout.at is None
                    &&& final(self).pr == (MQTTRead::Init { max_size: old(self).pr.max_size() })
                    &&& match res {
                        Ok(st) => {
                            &&& st.kind() == 0
                            &&& st.values().len() == 1
                            &&& PacketView::dec(old(self).pr.data()) matches Ok((v, n))
                            &&& PacketView::dec(old(self).pr.data())->Ok_0.0 == st.values()[0]@
                        },
                        Err(e) => PacketView::dec(old(self).pr.data()) == Err::<
                            (PacketView, int),
                            Error,
                        >(e),
                    }
            } else if old(self).read_outcome(now) == 1 {
                    &&& final(self).timeout == old(self).timeout.spec_arm(true, now, timeout)
                    &&& final(self).pr == old(self).pr
                    &&& res matches Ok(st)
                    &&& res->Ok_0.kind() == 1
                    &&& res->Ok_0.values().len() == 0
            } else {
                    &&& final(self).timeout.at is None
                    &&& final(self).pr == old(self).pr
                    &&& res matches Ok(st)
                    &&& res->Ok_0.kind() == 2
                    &&& res->Ok_0.values().len() == 0
            },
    {
        if self.pr.is_fin() {
            self.timeout.arm(false, now, timeout);
            let parsed = self.pr.parse();
            let mut pr = MQTTRead::new(0);
            std::mem::swap(&mut self.pr, &mut pr);
            self.pr = pr.reset();
            match parsed {
                Ok(pkt) => {
                    let mut pkts: Vec<Packet> = Vec::new();
                    pkts.push(pkt);
                    Ok(QueueStatus::Done(pkts))
                },
                Err(e) => Err(e),
            }
        } else if !self.timeout.elapsed(now) {
            self.timeout.arm(true, now, timeout);
            Ok(QueueStatus::Block(Vec::new()))
        } else {
            self.timeout.arm(false, now, timeout);
            Ok(QueueStatus::Disconnected(Vec::new()))
        }
    }

    /// Books the packets of `status` and says what to do next: read on while
    /// packets come and fewer than `batch` are booked; stop as disconnected
    /// when the connection is gone and nothing is booked; else hand on what is
    /// booked.
    pub fn on_read(&mut self, status: QueuePkt, batch: usize) -> (step: ReadStep)
        ensures
            final(self).session_tx == old(self).session_tx,
            final(self).packets@ == old(self).packets@ + status.values(),
            final(self).pr == old(self).pr,
            final(self).timeout == old(self).timeout,
            step == if status.kind() == 0 && final(self).packets@.len() < batch {
                ReadStep::Continue
            } else if status.kind() == 2 && final(self).packets@.len() == 0 {
                ReadStep::Disconnected
            } else {
                ReadStep::Flush
            },
    {
        let mut status = status;
        let done = status.is_ok();
        let gone = status.is_disconnected();
        let vals = status.take_values();
        extend_deque(&mut self.packets, vals);
        if done && self.packets.len() < batch {
            ReadStep::Continue
        } else if gone && self.packets.len() == 0 {
            ReadStep::Disconnected
        } else {
            ReadStep::Flush
        }
    }
}

/// What a connection does next while it writes packets.
#[derive(Clone, Copy, Debug, PartialEq, Eq, Structural)]
pub enum WriteStep {
    /// Write what is queued and take more from the shard.
    Continue,
    /// Write what is queued and stop for this turn.
    FlushAndStop,
    /// The shard is gone.
    Disconnected,
}

/// The index of the first packet of `pkts` that can be written, or the length
/// of `pkts` if none can.
pub open spec fn first_encodable(pkts: Seq<Packet>) -> int
    decreases pkts.len(),
{
    if pkts.len() == 0 {
        0
    } else if pkts[0]@.spec_encode() is Ok {
        0
    } else {
        1 + first_encodable(pkts.subrange(1, pkts.len() as int))
    }
}

/// The sum of `a` and `b`, or the largest number if the sum is larger.
pub open spec fn capped_sum(a: usize, b: nat) -> usize {
    if a + b > usize::MAX {
        usize::MAX
    } else {
        (a + b) as usize
    }
}

/// The writing half of a connection.
pub struct Sink {
    pub pw: MQTTWrite,
    /// Runs while a packet is written only in part.
    pub timeout: Deadline,
    pub miot_rx: PktRx,
    /// All out-going MQTT packets on this socket first land here.
    pub packets: VecDeque<Packet>,
}

impl Sink {
    pub open spec fn wf(self) -> bool {
        self.pw.wf()
    }

    /// What `after_write` answers.
    pub open spec fn write_outcome(self, now: u64) -> int {
        if self.pw is Fin {
            0
        } else if self.timeout.at matches Some(t) && now > t {
            2
        } else {
            1
        }
    }

    /// Whether the deadline for the packet that is being written has passed.
    pub fn write_elapsed(&self, now: u64) -> (b: bool)
        ensures
            b == (self.timeout.at matches Some(t) && now > t),
    {
        self.timeout.elapsed(now)
    }

    /// With `retry`, starts the write deadline unless it runs; without, clears
    /// it.
    pub fn set_write_timeout(&mut self, retry: bool, now: u64, timeout: u64)
        ensures
            final(self).miot_rx == old(self).miot_rx,
            final(self).timeout == old(self).timeout.spec_arm(retry, now, timeout),
            final(self).pw == old(self).pw,
            final(self).packets == old(self).packets,
    {
        self.timeout.arm(retry, now, timeout);
    }

    /// What the connection makes of the state that a write has left: `Done`
    /// when nothing is left to write, and the deadline is cleared; `Block`
    /// while bytes are left and the deadline has not passed, and the deadline
    /// starts if it does not run; `Disconnected` once it has passed, and the
    /// deadline is cleared. The status carries no packets.
    pub fn after_write(&mut self, now: u64, timeout: u64) -> (res: QueuePkt)
        ensures
            final(self).miot_rx == old(self).miot_rx,
            final(self).pw == old(self).pw,
            final(self).packets == old(self).packets,
            res.values().len() == 0,
            res.kind() == old(self).write_outcome(now),
            final(self).timeout == if res.kind() == 1 {
                old(self).timeout.spec_arm(true, now, timeout)
            } else {
                Deadline { at: None }
            },
    {
        if self.pw.is_fin() {
            self.timeout.arm(false, now, timeout);
            QueueStatus::Done(Vec::new())
        } else if !self.timeout.elapsed(now) {
            self.timeout.arm(true, now, timeout);
            QueueStatus::Block(Vec::new())
        } else {
            self.timeout.arm(false, now, timeout);
            QueueStatus::Disconnected(Vec::new())
        }
    }

    /// Takes packets off the queue until one can be written, and returns its
    /// bytes; packets that cannot be written are dropped, so that a single bad
    /// packet cannot block the connection. The bytes are counted in `stats`.
    /// Returns nothing when the queue holds no packet that can be written.
    #[verifier::rlimit(40)]
    pub fn next_blob(&mut self, stats: &mut Stats) -> (res: Option<Vec<u8>>)
        ensures
            final(self).miot_rx == old(self).miot_rx,
            final(self).pw == old(self).pw,
            final(self).timeout == old(self).timeout,
            final(stats).items == old(stats).items,
            ({
                let pkts = old(self).packets@;
                let k = first_encodable(pkts);
                match res {
                    Some(blob) => {
                        &&& 0 <= k < pkts.len()
                        &&& pkts[k]@.spec_encode() == Ok::<Seq<u8>, Error>(blob@)
                        &&& final(self).packets@ == pkts.subrange(k + 1, pkts.len() as int)
                        &&& final(stats).bytes == capped_sum(old(stats).bytes, blob@.len())
                    },
                    None => {
                        &&& k == pkts.len()
                        &&& final(self).packets@.len() == 0
                        &&& final(stats).bytes == old(stats).bytes
                    },
                }
            }),
    {
        let ghost pkts = self.packets@;
        let ghost mut skipped: int = 0;
        assert(pkts.subrange(0, pkts.len() as int) =~= pkts);
        loop
            invariant
                0 <= skipped <= pkts.len(),
                pkts == old(self).packets@,
                self.packets@ == pkts.subrange(skipped, pkts.len() as int),
                first_encodable(pkts) == skipped + first_encodable(self.packets@),
                self.pw == old(self).pw,
                self.timeout == old(self).timeout,
                self.miot_rx == old(self).miot_rx,
                *stats == *old(stats),
            decreases pkts.len() - skipped,
        {
            let ghost before = self.packets@;
            match self.packets.pop_front() {
                None => {
                    return None;
                },
                Some(packet) => {
                    assert(packet == pkts[skipped]);
                    assert(self.packets@ =~= pkts.subrange(skipped + 1, pkts.len() as int));
                    match packet.encode() {
                        Ok(blob) => {
                            stats.bytes = if blob.len() > usize::MAX - stats.bytes {
                                usize::MAX
                            } else {
                                stats.bytes + blob.len()
                            };
                            return Some(blob);
                        },
                        Err(_) => {
                            proof {
                                assert(before.subrange(1, before.len() as int) =~= self.packets@);
                                skipped = skipped + 1;
                            }
                        },
                    }
                },
            }
        }
    }

    /// Loads the bytes of the next packet for writing, and counts the packet
    /// in `stats`.
    pub fn load(&mut self, blob: &[u8], stats: &mut Stats)
        ensures
            final(self).miot_rx == old(self).miot_rx,
            final(self).pw.wf(),
            final(self).pw.pending() == blob@,
            final(self).packets == old(self).packets,
            final(self).timeout == old(self).timeout,
            final(stats).bytes == old(stats).bytes,
            final(stats).items == capped_sum(old(stats).items, 1),
    {
        let mut pw = MQTTWrite::new();
        std::mem::swap(&mut self.pw, &mut pw);
        self.pw = pw.reset(blob);
        stats.items = if stats.items == usize::MAX {
            usize::MAX
        } else {
            stats.items + 1
        };
    }

    /// Books the packets of `status`, which came from the shard, and says what
    /// to do next.
    pub fn on_recv(&mut self, status: QueuePkt) -> (step: WriteStep)
        ensures
            final(self).miot_rx == old(self).miot_rx,
            final(self).packets@ == old(self).packets@ + status.values(),
            final(self).pw == old(self).pw,
            final(self).timeout == old(self).timeout,
            step == if status.kind() == 0 {
                WriteStep::Continue
            } else if status.kind() == 1 {
                WriteStep::FlushAndStop
            } else {
                WriteStep::Disconnected
            },
    {
        let mut status = status;
        let done = status.is_ok();
        let block = status.is_block();
        let vals = status.take_values();
        extend_deque(&mut self.packets, vals);
        if done {
            WriteStep::Continue
        } else if block {
            WriteStep::FlushAndStop
        } else {
            WriteStep::Disconnected
        }
    }
}

} // verus!
