//! The sequencing rules of a session: what goes out to the client and in
//! which order, how many deliveries may be unacknowledged at once, and when a
//! PUBLISH that came in is acknowledged to its publisher.

use vstd::prelude::*;
use vstd::set_lib::*;
use std::collections::VecDeque;
use crate::broker::message::{reversed, Message, Subscription};
use crate::broker::{InpSeqno, OutSeqno};
use crate::error::{Error, ErrorKind, ReasonCode};
use crate::v5::connack::ConnAck;
use crate::v5::connect::Connect;
use crate::v5::packet::Packet;
use crate::v5::sub::Subscribe;
use crate::v5::suback::SubAck;
use crate::v5::pubaclc::{PubARLC, ReasCode};
use crate::v5::publish::Publish;
use crate::v5::{ClientID, PacketID, PacketType, QoS};

verus! {

/// The error that disconnects a client whose backlog is full.
pub open spec fn quota_exceeded() -> Error {
    Error { kind: ErrorKind::ProtocolError, code: ReasonCode::QuotaExceeded }
}

/// The error for a packet identifier that is in use already.
pub open spec fn packet_id_in_use() -> Error {
    Error { kind: ErrorKind::ProtocolError, code: ReasonCode::PacketIdentifierInUse }
}

/// What a delivery that is in flight waits for.
#[derive(Clone, Copy, Debug, PartialEq, Eq, Structural)]
pub enum Phase {
    /// Quality of service 1: the PUBACK.
    AwaitPubAck,
    /// Quality of service 2: the PUBREC.
    AwaitPubRec,
    /// Quality of service 2, after PUBREC and PUBREL: the PUBCOMP.
    AwaitPubComp,
}

/// A PUBLISH that has gone to the client and is not yet acknowledged.
#[derive(Clone, Debug, PartialEq, Eq)]
pub struct Inflight {
    pub packet_id: PacketID,
    pub out_seqno: OutSeqno,
    pub phase: Phase,
    pub publish: Publish,
}

/// Whether `id` is the packet identifier of one of `entries`.
pub open spec fn id_in_use(entries: Seq<Inflight>, id: PacketID) -> bool {
    exists|k: int| 0 <= k < entries.len() && (#[trigger] entries[k]).packet_id == id
}

/// The first packet identifier from `c` up to 65535 that is not in use.
pub open spec fn free_from(entries: Seq<Inflight>, c: int) -> Option<PacketID>
    decreases 65536 - c,
{
    if c < 1 || c > 65535 {
        None
    } else if !id_in_use(entries, c as PacketID) {
        Some(c as PacketID)
    } else {
        free_from(entries, c + 1)
    }
}

/// The packet identifier that the next delivery takes: the first one from
/// `start` up that is not in use, and if there is none, the first one from 1
/// up.
pub open spec fn next_free(entries: Seq<Inflight>, start: PacketID) -> Option<PacketID> {
    match free_from(entries, start as int) {
        Some(id) => Some(id),
        None => free_from(entries, 1),
    }
}

/// The packet identifier behind `id` in the rolling count, which skips 0.
pub open spec fn id_after(id: PacketID) -> PacketID {
    if id == 65535 {
        1
    } else {
        (id + 1) as PacketID
    }
}

/// The outbound side of a session: what is queued toward the client and what
/// is in flight.
pub struct ClientOut {
    /// The sequence number that the next PUBLISH queued toward the client
    /// takes; it starts at 1.
    pub seqno: OutSeqno,
    /// Rolling 16-bit packet identifier; where the search for the next free
    /// identifier starts. Never 0.
    pub next_packet_id: PacketID,
    /// The deliveries above quality of service 0 that are not yet acknowledged,
    /// oldest first.
    pub inflight: Vec<Inflight>,
    /// All messages meant for the client first land here.
    pub back_log: VecDeque<Message>,
    /// How many deliveries may be in flight at once; the client names it.
    pub receive_maximum: u16,
    /// How many messages the backlog may hold.
    pub back_log_cap: usize,
}

impl ClientOut {
    /// The state that every operation keeps: counters are not 0; no more
    /// deliveries are in flight than the client allows; the deliveries in
    /// flight have packet identifiers that are not 0 and differ from each
    /// other, and sequence numbers that rise; the backlog holds only what can
    /// go to a socket.
    pub open spec fn wf(self) -> bool {
        &&& self.seqno >= 1
        &&& self.next_packet_id >= 1
        &&& self.receive_maximum >= 1
        &&& self.inflight@.len() <= self.receive_maximum
        &&& forall|i: int| 0 <= i < self.inflight@.len() ==> (#[trigger] self.inflight@[i]).packet_id != 0
        &&& forall|i: int, j: int|
            0 <= i < j < self.inflight@.len() ==> (#[trigger] self.inflight@[i]).packet_id != (
            #[trigger] self.inflight@[j]).packet_id
        &&& forall|i: int, j: int|
            0 <= i < j < self.inflight@.len() ==> (#[trigger] self.inflight@[i]).out_seqno < (
            #[trigger] self.inflight@[j]).out_seqno
        &&& forall|i: int| 0 <= i < self.inflight@.len() ==> (#[trigger] self.inflight@[i]).out_seqno < self.seqno
        &&& forall|i: int| 0 <= i < self.back_log@.len() ==> (#[trigger] self.back_log@[i]).carries_packet()
        &&& forall|i: int| 0 <= i < self.back_log@.len() ==> queued_below(#[trigger] self.back_log@[i], self.seqno)
        &&& forall|i: int, j: int|
            0 <= i < self.inflight@.len() && 0 <= j < self.back_log@.len() ==> queued_above(
                #[trigger] self.back_log@[j],
                (#[trigger] self.inflight@[i]).out_seqno,
            )
        &&& forall|i: int, j: int|
            0 <= i < j < self.back_log@.len() ==> queued_order(
                #[trigger] self.back_log@[i],
                #[trigger] self.back_log@[j],
            )
    }

    /// What `flush_one` does with the message at the head of the backlog: 0 to
    /// pass it on as it is, 1 to take it in flight and pass it on, 2 to wait
    /// because as many deliveries are in flight as the client allows, 3
    /// because the backlog is empty.
    pub open spec fn head_action(self) -> int {
        if self.back_log@.len() == 0 {
            3
        } else {
            match self.back_log@[0] {
                Message::Packet { publish, .. } => if publish.qos == QoS::AtMostOnce {
                    0
                } else if self.inflight@.len() >= self.receive_maximum {
                    2
                } else {
                    1
                },
                _ => 0,
            }
        }
    }

    /// The outbound side of a fresh session.
    pub fn new(receive_maximum: u16, back_log_cap: usize) -> (out: ClientOut)
        requires
            receive_maximum >= 1,
        ensures
            out.wf(),
            out.seqno == 1,
            out.next_packet_id == 1,
            out.inflight@.len() == 0,
            out.back_log@.len() == 0,
            out.receive_maximum == receive_maximum,
            out.back_log_cap == back_log_cap,
    {
        ClientOut {
            seqno: 1,
            next_packet_id: 1,
            inflight: Vec::new(),
            back_log: VecDeque::new(),
            receive_maximum,
            back_log_cap,
        }
    }

    /// Whether `id` is the packet identifier of a delivery in flight.
    pub fn in_use(&self, id: PacketID) -> (b: bool)
        ensures
            b == id_in_use(self.inflight@, id),
    {
        let mut k: usize = 0;
        while k < self.inflight.len()
            invariant
                k <= self.inflight@.len(),
                forall|j: int| 0 <= j < k ==> (#[trigger] self.inflight@[j]).packet_id != id,
            decreases self.inflight@.len() - k,
        {
            if self.inflight[k].packet_id == id {
                return true;
            }
            k += 1;
        }
        false
    }

    /// The first packet identifier from `from` up to 65535 that is not in use.
    fn scan(&self, from: PacketID) -> (res: Option<PacketID>)
        requires
            from >= 1,
        ensures
            res == free_from(self.inflight@, from as int),
    {
        let mut c: PacketID = from;
        loop
            invariant
                1 <= from <= c <= 65535,
                free_from(self.inflight@, from as int) == free_from(self.inflight@, c as int),
            decreases 65535 - c,
        {
            if !self.in_use(c) {
                return Some(c);
            }
            if c == 65535 {
                assert(free_from(self.inflight@, 65536) is None);
                return None;
            }
            c += 1;
        }
    }

    /// The packet identifier that the next delivery takes, if one is free.
    pub fn next_free_id(&self) -> (res: Option<PacketID>)
        requires
            self.wf(),
        ensures
            res == next_free(self.inflight@, self.next_packet_id),
            res matches Some(id) ==> id != 0 && !id_in_use(self.inflight@, id),
    {
        proof {
            lemma_free_from_is_free(self.inflight@, self.next_packet_id as int);
            lemma_free_from_is_free(self.inflight@, 1);
        }
        match self.scan(self.next_packet_id) {
            Some(id) => Some(id),
            None => self.scan(1),
        }
    }
}

impl ClientOut {
    /// Queues a packet that the broker made for the client. A backlog that
    /// holds as many messages as it may disconnects the client with "quota
    /// exceeded", and stays as it is.
    pub fn queue_ack(&mut self, packet: Packet) -> (res: Result<(), Error>)
        requires
            old(self).wf(),
        ensures
            final(self).wf(),
            final(self).seqno == old(self).seqno,
            final(self).next_packet_id == old(self).next_packet_id,
            final(self).inflight == old(self).inflight,
            final(self).receive_maximum == old(self).receive_maximum,
            final(self).back_log_cap == old(self).back_log_cap,
            match res {
                Ok(()) => old(self).back_log@.len() < old(self).back_log_cap && final(self).back_log@ == old(self).back_log@.push(Message::ClientAck { packet }),
                Err(e) => old(self).back_log@.len() >= old(self).back_log_cap && e
                    == quota_exceeded() && final(self).back_log@ == old(self).back_log@,
            },
    {
        if self.back_log.len() >= self.back_log_cap {
            return Err(Error::new(ErrorKind::ProtocolError, ReasonCode::QuotaExceeded));
        }
        self.back_log.push_back(Message::ClientAck { packet });
        Ok(())
    }

    /// Queues a PUBLISH toward the client and gives it the next sequence
    /// number, which is returned. A backlog that holds as many messages as it
    /// may disconnects the client with "quota exceeded", and stays as it is.
    pub fn queue_publish(&mut self, publish: Publish) -> (res: Result<OutSeqno, Error>)
        requires
            old(self).wf(),
            old(self).seqno < u64::MAX,
        ensures
            final(self).wf(),
            final(self).next_packet_id == old(self).next_packet_id,
            final(self).inflight == old(self).inflight,
            final(self).receive_maximum == old(self).receive_maximum,
            final(self).back_log_cap == old(self).back_log_cap,
            match res {
                Ok(n) => {
                    &&& old(self).back_log@.len() < old(self).back_log_cap
                    &&& n == old(self).seqno
                    &&& final(self).seqno == old(self).seqno + 1
                    &&& final(self).back_log@ == old(self).back_log@.push(
                        Message::Packet { out_seqno: n, publish },
                    )
                },
                Err(e) => {
                    &&& old(self).back_log@.len() >= old(self).back_log_cap
                    &&& e == quota_exceeded()
                    &&& final(self).seqno == old(self).seqno
                    &&& final(self).back_log@ == old(self).back_log@
                },
            },
    {
        if self.back_log.len() >= self.back_log_cap {
            return Err(Error::new(ErrorKind::ProtocolError, ReasonCode::QuotaExceeded));
        }
        let n = self.seqno;
        self.back_log.push_back(Message::Packet { out_seqno: n, publish });
        self.seqno = n + 1;
        Ok(n)
    }

    /// Passes the message at the head of the backlog on to the socket, if it
    /// may go. An acknowledgement and a PUBLISH of quality of service 0 go as
    /// they are. A PUBLISH of a higher quality of service goes only while
    /// fewer deliveries are in flight than the client allows; it is given the
    /// next free packet identifier and is then in flight. Returns nothing, and
    /// changes nothing, when the backlog is empty or its head has to wait.
    #[verifier::rlimit(40)]
    pub fn flush_one(&mut self) -> (res: Option<Packet>)
        requires
            old(self).wf(),
        ensures
            final(self).wf(),
            final(self).seqno == old(self).seqno,
            final(self).receive_maximum == old(self).receive_maximum,
            final(self).back_log_cap == old(self).back_log_cap,
            res is Some <==> old(self).head_action() <= 1,
            res is None ==> final(self).back_log@ == old(self).back_log@ && final(self).inflight@
                == old(self).inflight@ && final(self).next_packet_id == old(self).next_packet_id,
            res matches Some(pkt) ==> {
                &&& final(self).back_log@ == old(self).back_log@.subrange(
                    1,
                    old(self).back_log@.len() as int,
                )
                &&& emits(old(self).back_log@[0], pkt)
            },
            old(self).head_action() == 0 ==> final(self).inflight@ == old(self).inflight@ && final(self).next_packet_id == old(self).next_packet_id,
            old(self).head_action() == 1 ==> {
                let n = old(self).inflight@.len() as int;
                let id = next_free(old(self).inflight@, old(self).next_packet_id);
                &&& id is Some
                &&& final(self).inflight@.len() == n + 1
                &&& final(self).inflight@.subrange(0, n) == old(self).inflight@
                &&& final(self).inflight@[n].packet_id == id->Some_0
                &&& old(self).back_log@[0] matches Message::Packet { out_seqno, publish }
                &&& final(self).inflight@[n].out_seqno == out_seqno
                &&& final(self).inflight@[n].phase == first_phase(publish.qos)
                &&& res matches Some(Packet::Publish(p))
                &&& p.packet_id == id
                &&& final(self).inflight@[n].publish@ == p@
                &&& final(self).next_packet_id == id_after(id->Some_0)
            },
    {
        let ghost before = *self;
        if self.back_log.len() == 0 {
            return None;
        }
        let hold = match &self.back_log[0] {
            Message::Packet { publish, .. } => match publish.qos {
                QoS::AtMostOnce => false,
                _ => self.inflight.len() >= self.receive_maximum as usize,
            },
            _ => false,
        };
        if hold {
            return None;
        }
        let head = match self.back_log.pop_front() {
            Some(m) => m,
            None => {
                return None;
            },
        };
        assert(head == before.back_log@[0]);
        assert(head.carries_packet());
        match head {
            Message::Packet { out_seqno, publish } => {
                match publish.qos {
                    QoS::AtMostOnce => Some(Packet::Publish(publish)),
                    _ => {
                        proof {
                            lemma_some_id_is_free(self.inflight@, self.next_packet_id);
                        }
                        let id = match self.next_free_id() {
                            Some(id) => id,
                            None => unreached(),
                        };
                        let phase = match publish.qos {
                            QoS::ExactlyOnce => Phase::AwaitPubRec,
                            _ => Phase::AwaitPubAck,
                        };
                        let mut publish = publish;
                        publish.packet_id = Some(id);
                        let copy = publish.duplicate();
                        let entry = Inflight { packet_id: id, out_seqno, phase, publish: copy };
                        self.inflight.push(entry);
                        self.next_packet_id = if id == 65535 {
                            1
                        } else {
                            id + 1
                        };
                        proof {
                            let n = before.inflight@.len() as int;
                            assert(self.inflight@.subrange(0, n) =~= before.inflight@);
                            assert(queued_below(before.back_log@[0], before.seqno));
                            assert forall|i: int, j: int|
                                0 <= i < j < self.inflight@.len() implies (
                            #[trigger] self.inflight@[i]).packet_id != (
                            #[trigger] self.inflight@[j]).packet_id by {
                                if j == n {
                                    assert(before.inflight@[i].packet_id != id);
                                }
                            }
                            assert forall|i: int, j: int|
                                0 <= i < j < self.inflight@.len() implies (
                            #[trigger] self.inflight@[i]).out_seqno < (
                            #[trigger] self.inflight@[j]).out_seqno by {
                                if j == n {
                                    assert(queued_above(
                                        before.back_log@[0],
                                        before.inflight@[i].out_seqno,
                                    ));
                                }
                            }
                            assert forall|i: int, j: int|
                                0 <= i < self.inflight@.len() && 0 <= j
                                    < self.back_log@.len() implies queued_above(
                                #[trigger] self.back_log@[j],
                                (#[trigger] self.inflight@[i]).out_seqno,
                            ) by {
                                assert(self.back_log@[j] == before.back_log@[j + 1]);
                                if i == n {
                                    assert(queued_order(
                                        before.back_log@[0],
                                        before.back_log@[j + 1],
                                    ));
                                } else {
                                    assert(queued_above(
                                        before.back_log@[j + 1],
                                        before.inflight@[i].out_seqno,
                                    ));
                                }
                            }
                        }
                        Some(Packet::Publish(publish))
                    },
                }
            },
            Message::ClientAck { packet } => Some(packet),
            _ => unreached(),
        }
    }
}

impl ClientOut {
    /// Passes on to the socket what may go, from the head of the backlog on and
    /// in order, and returns it. What stays is either nothing, or a PUBLISH
    /// above quality of service 0 that has to wait because as many deliveries
    /// are in flight as the client allows, with everything behind it.
    #[verifier::rlimit(40)]
    pub fn flush(&mut self) -> (out: Vec<Packet>)
        requires
            old(self).wf(),
        ensures
            final(self).wf(),
            final(self).inflight@.len() <= final(self).receive_maximum,
            final(self).seqno == old(self).seqno,
            final(self).receive_maximum == old(self).receive_maximum,
            final(self).back_log_cap == old(self).back_log_cap,
            out@.len() <= old(self).back_log@.len(),
            final(self).back_log@ == old(self).back_log@.subrange(
                out@.len() as int,
                old(self).back_log@.len() as int,
            ),
            forall|i: int| 0 <= i < out@.len() ==> emits(old(self).back_log@[i], #[trigger] out@[i]),
            final(self).head_action() >= 2,
            final(self).inflight@.len() == old(self).inflight@.len() + windowed(
                old(self).back_log@.take(out@.len() as int),
            ),
            final(self).inflight@.subrange(0, old(self).inflight@.len() as int) == old(self).inflight@,
            forall|j: int|
                old(self).inflight@.len() <= j < final(self).inflight@.len() ==> in_flight_for_one(
                    old(self).back_log@,
                    out@,
                    #[trigger] final(self).inflight@[j],
                ),
    {
        let mut out: Vec<Packet> = Vec::new();
        let ghost orig = self.back_log@;
        let ghost first = self.inflight@;
        assert(orig.subrange(0, orig.len() as int) =~= orig);
        assert(first.subrange(0, first.len() as int) =~= first);
        loop
            invariant
                self.wf(),
                orig == old(self).back_log@,
                first == old(self).inflight@,
                self.seqno == old(self).seqno,
                self.receive_maximum == old(self).receive_maximum,
                self.back_log_cap == old(self).back_log_cap,
                out@.len() <= orig.len(),
                self.back_log@ == orig.subrange(out@.len() as int, orig.len() as int),
                forall|i: int| 0 <= i < out@.len() ==> emits(orig[i], #[trigger] out@[i]),
                self.inflight@.len() == first.len() + windowed(orig.take(out@.len() as int)),
                self.inflight@.subrange(0, first.len() as int) == first,
                forall|j: int|
                    first.len() <= j < self.inflight@.len() ==> in_flight_for_one(
                        orig,
                        out@,
                        #[trigger] self.inflight@[j],
                    ),
            decreases self.back_log@.len(),
        {
            let ghost now = self.back_log@;
            let ghost flying = self.inflight@;
            let ghost sent = out@;
            let ghost action = self.head_action();
            match self.flush_one() {
                Some(pkt) => {
                    out.push(pkt);
                    proof {
                        let k = out@.len() as int;
                        assert(now[0] == orig[k - 1]);
                        assert(self.back_log@ =~= orig.subrange(k, orig.len() as int));
                        assert(orig.take(k).drop_last() =~= orig.take(k - 1));
                        assert(orig.take(k).last() == now[0]);
                        assert(needs_window(now[0]) <==> action == 1);
                        assert forall|j: int| first.len() <= j < self.inflight@.len() implies in_flight_for_one(
                            orig,
                            out@,
                            #[trigger] self.inflight@[j],
                        ) by {
                            if j < flying.len() {
                                assert(in_flight_for_one(orig, sent, flying[j]));
                                let i = choose|i: int|
                                    0 <= i < sent.len() && i < orig.len() && in_flight_for(
                                        orig[i],
                                        #[trigger] sent[i],
                                        flying[j],
                                    );
                                assert(out@[i] == sent[i]);
                                assert(self.inflight@[j] == flying[j]) by {
                                    if action == 1 {
                                        assert(self.inflight@.subrange(0, flying.len() as int)[j]
                                            == self.inflight@[j]);
                                    }
                                }
                                assert(in_flight_for(orig[i], out@[i], self.inflight@[j]));
                            } else {
                                assert(in_flight_for(orig[k - 1], out@[k - 1], self.inflight@[j]));
                            }
                        }
                        assert(self.inflight@.subrange(0, first.len() as int) =~= first) by {
                            if self.inflight@.len() > flying.len() {
                                assert(self.inflight@.subrange(0, flying.len() as int) == flying);
                                assert forall|i: int| 0 <= i < first.len() implies self.inflight@[i]
                                    == first[i] by {
                                    assert(self.inflight@.subrange(0, flying.len() as int)[i]
                                        == self.inflight@[i]);
                                    assert(flying.subrange(0, first.len() as int)[i] == flying[i]);
                                }
                            }
                        }
                    }
                },
                None => {
                    return out;
                },
            }
        }
    }

    /// The index of the delivery with the packet identifier `id` that is in the
    /// phase `phase`.
    fn find(&self, id: PacketID, phase: Phase) -> (res: Option<usize>)
        requires
            self.wf(),
        ensures
            match res {
                Some(k) => k < self.inflight@.len() && self.inflight@[k as int].packet_id == id
                    && self.inflight@[k as int].phase == phase,
                None => forall|j: int|
                    0 <= j < self.inflight@.len() ==> !((#[trigger] self.inflight@[j]).packet_id
                        == id && self.inflight@[j].phase == phase),
            },
    {
        let mut k: usize = 0;
        while k < self.inflight.len()
            invariant
                k <= self.inflight@.len(),
                forall|j: int|
                    0 <= j < k ==> !((#[trigger] self.inflight@[j]).packet_id == id
                        && self.inflight@[j].phase == phase),
            decreases self.inflight@.len() - k,
        {
            let e = &self.inflight[k];
            let same = match (e.phase, phase) {
                (Phase::AwaitPubAck, Phase::AwaitPubAck) => true,
                (Phase::AwaitPubRec, Phase::AwaitPubRec) => true,
                (Phase::AwaitPubComp, Phase::AwaitPubComp) => true,
                _ => false,
            };
            if e.packet_id == id && same {
                return Some(k);
            }
            k += 1;
        }
        None
    }

    /// Ends the delivery with the packet identifier `id` that is in the phase
    /// `phase`, and returns it; nothing changes if there is none.
    #[verifier::rlimit(40)]
    fn settle(&mut self, id: PacketID, phase: Phase) -> (res: Option<Inflight>)
        requires
            old(self).wf(),
        ensures
            final(self).wf(),
            final(self).seqno == old(self).seqno,
            final(self).next_packet_id == old(self).next_packet_id,
            final(self).back_log == old(self).back_log,
            final(self).receive_maximum == old(self).receive_maximum,
            final(self).back_log_cap == old(self).back_log_cap,
            match res {
                Some(e) => exists|k: int|
                    0 <= k < old(self).inflight@.len() && (#[trigger] old(self).inflight@[k]) == e
                        && e.packet_id == id && e.phase == phase && final(self).inflight@ == old(self).inflight@.remove(k),
                None => final(self).inflight@ == old(self).inflight@ && forall|j: int|
                    0 <= j < old(self).inflight@.len() ==> !((#[trigger] old(self).inflight@[j]).packet_id == id && old(self).inflight@[j].phase == phase),
            },
    {
        match self.find(id, phase) {
            None => None,
            Some(k) => {
                let ghost before = self.inflight@;
                let e = self.inflight.remove(k);
                proof {
                    let after = self.inflight@;
                    assert(after == before.remove(k as int));
                    assert forall|i: int| 0 <= i < after.len() implies #[trigger] after[i] == before[if i
                        < k {
                        i
                    } else {
                        i + 1
                    }] by {}
                    assert forall|i: int, j: int|
                        0 <= i < self.inflight@.len() && 0 <= j
                            < self.back_log@.len() implies queued_above(
                        #[trigger] self.back_log@[j],
                        (#[trigger] self.inflight@[i]).out_seqno,
                    ) by {
                        let i0 = if i < k {
                            i
                        } else {
                            i + 1
                        };
                        assert(queued_above(self.back_log@[j], before[i0].out_seqno));
                    }
                    assert forall|i: int, j: int| 0 <= i < j < after.len() implies (
                    #[trigger] after[i]).packet_id != (#[trigger] after[j]).packet_id && after[i].out_seqno
                        < after[j].out_seqno by {
                        let i0 = if i < k {
                            i
                        } else {
                            i + 1
                        };
                        let j0 = if j < k {
                            j
                        } else {
                            j + 1
                        };
                        assert(before[i0].packet_id != before[j0].packet_id);
                        assert(before[i0].out_seqno < before[j0].out_seqno);
                    }
                }
                Some(e)
            },
        }
    }

    /// The client has acknowledged the delivery `id` of quality of service 1:
    /// the delivery is no longer in flight. Returns whether such a delivery was
    /// in flight.
    pub fn on_puback(&mut self, id: PacketID) -> (found: bool)
        requires
            old(self).wf(),
        ensures
            final(self).wf(),
            final(self).seqno == old(self).seqno,
            final(self).next_packet_id == old(self).next_packet_id,
            final(self).back_log == old(self).back_log,
            final(self).receive_maximum == old(self).receive_maximum,
            final(self).back_log_cap == old(self).back_log_cap,
            found <==> exists|k: int|
                0 <= k < old(self).inflight@.len() && (#[trigger] old(self).inflight@[k]).packet_id
                    == id && old(self).inflight@[k].phase == Phase::AwaitPubAck,
            found ==> exists|k: int|
                0 <= k < old(self).inflight@.len() && (#[trigger] old(self).inflight@[k]).packet_id
                    == id && final(self).inflight@ == old(self).inflight@.remove(k),
            found ==> !id_in_use(final(self).inflight@, id),
            !found ==> final(self).inflight@ == old(self).inflight@,
    {
        match self.settle(id, Phase::AwaitPubAck) {
            Some(_) => {
                proof {
                    lemma_removed_id_is_free(*old(self), *self, id);
                }
                true
            },
            None => false,
        }
    }

    /// The client has completed the delivery `id` of quality of service 2: the
    /// delivery is no longer in flight. Returns whether such a delivery waited
    /// for its PUBCOMP.
    pub fn on_pubcomp(&mut self, id: PacketID) -> (found: bool)
        requires
            old(self).wf(),
        ensures
            final(self).wf(),
            final(self).seqno == old(self).seqno,
            final(self).next_packet_id == old(self).next_packet_id,
            final(self).back_log == old(self).back_log,
            final(self).receive_maximum == old(self).receive_maximum,
            final(self).back_log_cap == old(self).back_log_cap,
            found <==> exists|k: int|
                0 <= k < old(self).inflight@.len() && (#[trigger] old(self).inflight@[k]).packet_id
                    == id && old(self).inflight@[k].phase == Phase::AwaitPubComp,
            found ==> exists|k: int|
                0 <= k < old(self).inflight@.len() && (#[trigger] old(self).inflight@[k]).packet_id
                    == id && final(self).inflight@ == old(self).inflight@.remove(k),
            found ==> !id_in_use(final(self).inflight@, id),
            !found ==> final(self).inflight@ == old(self).inflight@,
    {
        match self.settle(id, Phase::AwaitPubComp) {
            Some(_) => {
                proof {
                    lemma_removed_id_is_free(*old(self), *self, id);
                }
                true
            },
            None => false,
        }
    }

    /// The client has received the delivery `id` of quality of service 2: the
    /// delivery now waits for its PUBCOMP, and the PUBREL that answers the
    /// PUBREC is returned. Where no such delivery waited for its PUBREC, the
    /// PUBREL says "packet identifier not found" and nothing changes.
    #[verifier::rlimit(40)]
    pub fn on_pubrec(&mut self, id: PacketID) -> (rel: PubARLC)
        requires
            old(self).wf(),
        ensures
            final(self).wf(),
            final(self).seqno == old(self).seqno,
            final(self).next_packet_id == old(self).next_packet_id,
            final(self).back_log == old(self).back_log,
            final(self).receive_maximum == old(self).receive_maximum,
            final(self).back_log_cap == old(self).back_log_cap,
            final(self).inflight@.len() == old(self).inflight@.len(),
            rel.packet_type == PacketType::PubRel,
            rel.packet_id == id,
            rel.properties is None,
            rel.code == ReasCode::Success || rel.code == ReasCode::PacketIdNotFound,
            rel.code == ReasCode::Success <==> exists|k: int|
                0 <= k < old(self).inflight@.len() && (#[trigger] old(self).inflight@[k]).packet_id
                    == id && old(self).inflight@[k].phase == Phase::AwaitPubRec,
            rel.code == ReasCode::Success ==> exists|k: int|
                0 <= k < old(self).inflight@.len() && (#[trigger] old(self).inflight@[k]).packet_id
                    == id && final(self).inflight@ == old(self).inflight@.update(
                    k,
                    Inflight { phase: Phase::AwaitPubComp, ..old(self).inflight@[k] },
                ),
            rel.code != ReasCode::Success ==> final(self).inflight@ == old(self).inflight@,
    {
        match self.find(id, Phase::AwaitPubRec) {
            None => PubARLC {
                packet_type: PacketType::PubRel,
                packet_id: id,
                code: ReasCode::PacketIdNotFound,
                properties: None,
            },
            Some(k) => {
                let ghost before = self.inflight@;
                let e = self.inflight.remove(k);
                let moved = Inflight {
                    packet_id: e.packet_id,
                    out_seqno: e.out_seqno,
                    phase: Phase::AwaitPubComp,
                    publish: e.publish,
                };
                self.inflight.insert(k, moved);
                proof {
                    assert(self.inflight@ =~= before.update(
                        k as int,
                        Inflight { phase: Phase::AwaitPubComp, ..before[k as int] },
                    ));
                    assert forall|i: int, j: int|
                        0 <= i < self.inflight@.len() && 0 <= j
                            < self.back_log@.len() implies queued_above(
                        #[trigger] self.back_log@[j],
                        (#[trigger] self.inflight@[i]).out_seqno,
                    ) by {
                        assert(queued_above(self.back_log@[j], before[i].out_seqno));
                    }
                    assert forall|i: int, j: int| 0 <= i < j < self.inflight@.len() implies (
                    #[trigger] self.inflight@[i]).packet_id != (
                    #[trigger] self.inflight@[j]).packet_id && self.inflight@[i].out_seqno
                        < self.inflight@[j].out_seqno by {
                        assert(before[i].packet_id != before[j].packet_id);
                        assert(before[i].out_seqno < before[j].out_seqno);
                    }
                }
                PubARLC {
                    packet_type: PacketType::PubRel,
                    packet_id: id,
                    code: ReasCode::Success,
                    properties: None,
                }
            },
        }
    }
}

/// A packet identifier is free again once its delivery has left the window.
pub proof fn lemma_removed_id_is_free(before: ClientOut, after: ClientOut, id: PacketID)
    requires
        before.wf(),
        exists|k: int|
            0 <= k < before.inflight@.len() && (#[trigger] before.inflight@[k]).packet_id == id
                && after.inflight@ == before.inflight@.remove(k),
    ensures
        !id_in_use(after.inflight@, id),
{
    let k = choose|k: int|
        0 <= k < before.inflight@.len() && (#[trigger] before.inflight@[k]).packet_id == id
            && after.inflight@ == before.inflight@.remove(k);
    if id_in_use(after.inflight@, id) {
        let j = choose|j: int| 0 <= j < after.inflight@.len() && (#[trigger] after.inflight@[j]).packet_id == id;
        let j0 = if j < k {
            j
        } else {
            j + 1
        };
        assert(after.inflight@[j] == before.inflight@[j0]);
        if j0 < k {
            assert(before.inflight@[j0].packet_id != before.inflight@[k].packet_id);
        } else {
            assert(before.inflight@[k].packet_id != before.inflight@[j0].packet_id);
        }
    }
}

/// A message waits in the backlog with a sequence number below `seqno`, if it
/// carries one.
pub open spec fn queued_below(m: Message, seqno: OutSeqno) -> bool {
    m matches Message::Packet { out_seqno, .. } ==> out_seqno < seqno
}

/// A message waits in the backlog with a sequence number above `seqno`, if it
/// carries one.
pub open spec fn queued_above(m: Message, seqno: OutSeqno) -> bool {
    m matches Message::Packet { out_seqno, .. } ==> out_seqno > seqno
}

/// If both messages carry a sequence number, that of `a` is the lower one.
pub open spec fn queued_order(a: Message, b: Message) -> bool {
    a matches Message::Packet { out_seqno: x, .. } ==> queued_above(b, x)
}

/// The phase in which a delivery of quality of service `qos` starts.
pub open spec fn first_phase(qos: QoS) -> Phase {
    if qos == QoS::ExactlyOnce {
        Phase::AwaitPubRec
    } else {
        Phase::AwaitPubAck
    }
}

/// The packet `pkt` is the message `m` as it goes to the socket: the packet of
/// an acknowledgement, or the PUBLISH of a delivery, which for a quality of
/// service above 0 has been given a packet identifier.
pub open spec fn emits(m: Message, pkt: Packet) -> bool {
    match m {
        Message::ClientAck { packet } => pkt == packet,
        Message::Packet { publish, .. } => pkt matches Packet::Publish(p) && if publish.qos
            == QoS::AtMostOnce {
            p == publish
        } else {
            p@ == (crate::v5::publish::PublishView { packet_id: p.packet_id, ..publish@ })
                && p.packet_id is Some && p.packet_id != Some(0u16)
        },
        _ => false,
    }
}

/// The message is a PUBLISH above quality of service 0, which is in flight
/// once it has gone out.
pub open spec fn needs_window(m: Message) -> bool {
    m matches Message::Packet { publish, .. } && publish.qos != QoS::AtMostOnce
}

/// How many of the messages are in flight once they have gone out.
pub open spec fn windowed(msgs: Seq<Message>) -> nat
    decreases msgs.len(),
{
    if msgs.len() == 0 {
        0
    } else {
        windowed(msgs.drop_last()) + if needs_window(msgs.last()) {
            1nat
        } else {
            0nat
        }
    }
}

/// The delivery `e` is in flight for the message `m`, which went out as the
/// packet `pkt`: it has the sequence number of the message and the packet
/// identifier of the packet, and holds the packet for a retransmission.
pub open spec fn in_flight_for(m: Message, pkt: Packet, e: Inflight) -> bool {
    &&& m matches Message::Packet { out_seqno, publish }
    &&& publish.qos != QoS::AtMostOnce
    &&& pkt matches Packet::Publish(p)
    &&& p.packet_id == Some(e.packet_id)
    &&& e.out_seqno == out_seqno
    &&& e.phase == first_phase(publish.qos)
    &&& e.publish@ == p@
}

/// The delivery `e` is in flight for one of the messages `msgs`, which went
/// out as the packets `out`, one for one.
pub open spec fn in_flight_for_one(msgs: Seq<Message>, out: Seq<Packet>, e: Inflight) -> bool {
    exists|i: int| 0 <= i < out.len() && i < msgs.len() && in_flight_for(msgs[i], #[trigger] out[i], e)
}

/// What `free_from` finds is not 0 and not in use.
pub proof fn lemma_free_from_is_free(entries: Seq<Inflight>, c: int)
    ensures
        free_from(entries, c) matches Some(id) ==> id != 0 && id >= c && !id_in_use(entries, id),
    decreases 65536 - c,
{
    if 1 <= c <= 65535 && id_in_use(entries, c as PacketID) {
        lemma_free_from_is_free(entries, c + 1);
    }
}

/// Where `free_from` finds nothing, every packet identifier from `c` up is in
/// use.
pub proof fn lemma_free_from_none(entries: Seq<Inflight>, c: int, x: int)
    requires
        1 <= c <= x <= 65535,
        free_from(entries, c) is None,
    ensures
        id_in_use(entries, x as PacketID),
    decreases 65536 - c,
{
    if c < x {
        lemma_free_from_none(entries, c + 1, x);
    }
}

/// While fewer than 65535 deliveries are in flight, a packet identifier is
/// free.
pub proof fn lemma_some_id_is_free(entries: Seq<Inflight>, start: PacketID)
    requires
        entries.len() < 65535,
    ensures
        next_free(entries, start) is Some,
{
    if next_free(entries, start) is None {
        let ids = entries.map_values(|e: Inflight| e.packet_id as int);
        let all = set_int_range(1, 65536);
        assert forall|x: int| all.contains(x) implies ids.to_set().contains(x) by {
            lemma_free_from_none(entries, 1, x);
            let k = choose|k: int| 0 <= k < entries.len() && (#[trigger] entries[k]).packet_id == x as PacketID;
            assert(ids[k] == x);
        }
        lemma_int_range(1, 65536);
        ids.lemma_cardinality_of_set();
        vstd::seq_lib::seq_to_set_is_finite(ids);
        lemma_len_subset(all, ids.to_set());
    }
}

/// An inbound PUBLISH above quality of service 0 that is not yet acknowledged
/// to its publisher.
#[derive(Clone, Copy, Debug, PartialEq, Eq, Structural)]
pub struct InpEntry {
    pub packet_id: PacketID,
    pub inp_seqno: InpSeqno,
    pub qos: QoS,
}

/// How far a peer shard has acknowledged what was routed to it.
#[derive(Clone, Copy, Debug, PartialEq, Eq, Structural)]
pub struct PeerAck {
    pub shard_id: u32,
    /// Everything up to this sequence number has been delivered by the peer.
    pub last_acked: InpSeqno,
    /// When the peer last said so, in seconds.
    pub last_ack_time: u64,
}

/// The lowest `last_acked` among `peers`; without peers nothing waits for an
/// acknowledgement, and the lowest is the largest number.
pub open spec fn min_acked(peers: Seq<PeerAck>) -> InpSeqno
    decreases peers.len(),
{
    if peers.len() == 0 {
        u64::MAX
    } else {
        let rest = min_acked(peers.drop_last());
        if peers.last().last_acked < rest {
            peers.last().last_acked
        } else {
            rest
        }
    }
}

/// How many entries at the head of `index` have a sequence number of at most
/// `min`.
pub open spec fn settled(index: Seq<InpEntry>, min: InpSeqno) -> int
    decreases index.len(),
{
    if index.len() == 0 || index[0].inp_seqno > min {
        0
    } else {
        1 + settled(index.subrange(1, index.len() as int), min)
    }
}

/// The acknowledgement that the publisher of `e` gets: a PUBACK for quality of
/// service 1, a PUBREC for quality of service 2, with the reason `code`.
pub open spec fn ack_of(e: InpEntry, code: ReasCode) -> Packet {
    if e.qos == QoS::ExactlyOnce {
        Packet::PubRec(
            PubARLC {
                packet_type: PacketType::PubRec,
                packet_id: e.packet_id,
                code,
                properties: None,
            },
        )
    } else {
        Packet::PubAck(
            PubARLC {
                packet_type: PacketType::PubAck,
                packet_id: e.packet_id,
                code,
                properties: None,
            },
        )
    }
}

/// The acknowledgements of the entries `index`, in order, with "success".
pub open spec fn acks_of(index: Seq<InpEntry>) -> Seq<Packet> {
    Seq::new(index.len(), |k: int| ack_of(index[k], ReasCode::Success))
}

/// The sequence numbers of `index` rise strictly.
pub open spec fn rising(index: Seq<InpEntry>) -> bool {
    forall|i: int, j: int|
        0 <= i < j < index.len() ==> (#[trigger] index[i]).inp_seqno < (#[trigger] index[j]).inp_seqno
}

/// Whether an entry of `index` has the packet identifier `id`.
pub open spec fn id_waits(index: Seq<InpEntry>, id: PacketID) -> bool {
    exists|k: int| 0 <= k < index.len() && (#[trigger] index[k]).packet_id == id
}

/// Whether `peers` has an entry for the shard `shard_id`.
pub open spec fn peer_booked(peers: Seq<PeerAck>, shard_id: u32) -> bool {
    exists|k: int| 0 <= k < peers.len() && (#[trigger] peers[k]).shard_id == shard_id
}

/// The inbound side of a session: the sequence numbers of what its client
/// published, and which of it still waits to be acknowledged.
pub struct ClientInp {
    /// The sequence number that the next PUBLISH from the client takes; it
    /// starts at 1. Sequence numbers count for the whole shard: a shard that
    /// hosts several sessions keeps their counters in step with `catch_up`.
    pub seqno: InpSeqno,
    /// The PUBLISH packets above quality of service 0 that are not yet
    /// acknowledged to the client, oldest first.
    pub index: Vec<InpEntry>,
    /// One entry for each peer shard that takes part.
    pub peer_acks: Vec<PeerAck>,
}

impl ClientInp {
    /// The state that every operation keeps: the counter is not 0; the
    /// entries that wait have sequence numbers that rise, are not 0 and lie
    /// below the counter, and packet identifiers that differ from each other;
    /// every peer shard is booked once.
    pub open spec fn wf(self) -> bool {
        &&& self.seqno >= 1
        &&& rising(self.index@)
        &&& forall|i: int| 0 <= i < self.index@.len() ==> 1 <= (#[trigger] self.index@[i]).inp_seqno < self.seqno
        &&& forall|i: int, j: int|
            0 <= i < j < self.index@.len() ==> (#[trigger] self.index@[i]).packet_id != (
            #[trigger] self.index@[j]).packet_id
        &&& forall|i: int, j: int|
            0 <= i < j < self.peer_acks@.len() ==> (#[trigger] self.peer_acks@[i]).shard_id != (
            #[trigger] self.peer_acks@[j]).shard_id
    }

    /// The inbound side of a fresh session.
    pub fn new() -> (inp: ClientInp)
        ensures
            inp.wf(),
            inp.seqno == 1,
            inp.index@.len() == 0,
            inp.peer_acks@.len() == 0,
    {
        ClientInp { seqno: 1, index: Vec::new(), peer_acks: Vec::new() }
    }

    /// The index of the entry of the peer `shard_id`.
    fn find_peer(&self, shard_id: u32) -> (res: Option<usize>)
        ensures
            match res {
                Some(k) => k < self.peer_acks@.len() && self.peer_acks@[k as int].shard_id
                    == shard_id,
                None => !peer_booked(self.peer_acks@, shard_id),
            },
    {
        let mut k: usize = 0;
        while k < self.peer_acks.len()
            invariant
                k <= self.peer_acks@.len(),
                forall|j: int| 0 <= j < k ==> (#[trigger] self.peer_acks@[j]).shard_id != shard_id,
            decreases self.peer_acks@.len() - k,
        {
            if self.peer_acks[k].shard_id == shard_id {
                return Some(k);
            }
            k += 1;
        }
        None
    }

    /// Whether an entry with the packet identifier `id` waits.
    pub fn waits(&self, id: PacketID) -> (b: bool)
        ensures
            b == id_waits(self.index@, id),
    {
        let mut k: usize = 0;
        while k < self.index.len()
            invariant
                k <= self.index@.len(),
                forall|j: int| 0 <= j < k ==> (#[trigger] self.index@[j]).packet_id != id,
            decreases self.index@.len() - k,
        {
            if self.index[k].packet_id == id {
                return true;
            }
            k += 1;
        }
        false
    }

    /// Books the peer shard `shard_id`, unless it is booked. A peer that joins
    /// has acknowledged nothing.
    pub fn book_peer(&mut self, shard_id: u32, now: u64)
        requires
            old(self).wf(),
        ensures
            final(self).wf(),
            final(self).seqno == old(self).seqno,
            final(self).index == old(self).index,
            peer_booked(final(self).peer_acks@, shard_id),
            final(self).peer_acks@ == with_peer(old(self).peer_acks@, shard_id, now),
    {
        match self.find_peer(shard_id) {
            Some(k) => {},
            None => {
                let ghost before = self.peer_acks@;
                self.peer_acks.push(PeerAck { shard_id, last_acked: 0, last_ack_time: now });
                proof {
                    assert(self.peer_acks@[before.len() as int].shard_id == shard_id);
                    assert forall|i: int, j: int|
                        0 <= i < j < self.peer_acks@.len() implies (
                    #[trigger] self.peer_acks@[i]).shard_id != (
                    #[trigger] self.peer_acks@[j]).shard_id by {
                        if j == before.len() {
                            assert(before[i].shard_id != shard_id);
                        }
                    }
                }
            },
        }
    }

    /// Takes in a PUBLISH from the client: gives it the next sequence number,
    /// which is returned, and, for a quality of service above 0, books it
    /// under its packet identifier until the peers have acknowledged it. A
    /// packet identifier that still waits is refused with "packet identifier
    /// in use", and nothing changes.
    pub fn record(&mut self, publish: &Publish) -> (res: Result<InpSeqno, Error>)
        requires
            old(self).wf(),
            old(self).seqno < u64::MAX,
            publish@.spec_validate() is Ok,
        ensures
            final(self).wf(),
            final(self).peer_acks == old(self).peer_acks,
            match res {
                Ok(n) => {
                    &&& n == old(self).seqno
                    &&& final(self).seqno == old(self).seqno + 1
                    &&& final(self).index@ == if publish.qos == QoS::AtMostOnce {
                        old(self).index@
                    } else {
                        old(self).index@.push(
                            InpEntry {
                                packet_id: publish.packet_id->Some_0,
                                inp_seqno: n,
                                qos: publish.qos,
                            },
                        )
                    }
                    &&& publish.qos != QoS::AtMostOnce ==> !id_waits(
                        old(self).index@,
                        publish.packet_id->Some_0,
                    )
                },
                Err(e) => {
                    &&& e == packet_id_in_use()
                    &&& publish.qos != QoS::AtMostOnce
                    &&& id_waits(old(self).index@, publish.packet_id->Some_0)
                    &&& final(self).seqno == old(self).seqno
                    &&& final(self).index == old(self).index
                },
            },
    {
        let n = self.seqno;
        match publish.qos {
            QoS::AtMostOnce => {},
            _ => {
                let id = match publish.packet_id {
                    Some(id) => id,
                    None => unreached(),
                };
                if self.waits(id) {
                    return Err(
                        Error::new(ErrorKind::ProtocolError, ReasonCode::PacketIdentifierInUse),
                    );
                }
                let ghost before = self.index@;
                self.index.push(InpEntry { packet_id: id, inp_seqno: n, qos: publish.qos });
                proof {
                    assert forall|i: int, j: int| 0 <= i < j < self.index@.len() implies (
                    #[trigger] self.index@[i]).inp_seqno < (#[trigger] self.index@[j]).inp_seqno
                        && self.index@[i].packet_id != self.index@[j].packet_id by {
                        if j == before.len() {
                            assert(before[i].inp_seqno < n);
                            assert(before[i].packet_id != id);
                        } else {
                            assert(before[i].inp_seqno < before[j].inp_seqno);
                            assert(before[i].packet_id != before[j].packet_id);
                        }
                    }
                }
            },
        }
        self.seqno = n + 1;
        Ok(n)
    }

    /// Brings the counter up to `seqno`, the counter of the shard, if that is
    /// ahead: what the client publishes next comes after everything that
    /// entered the shard before.
    pub fn catch_up(&mut self, seqno: InpSeqno)
        requires
            old(self).wf(),
        ensures
            final(self).wf(),
            final(self).seqno == if seqno > old(self).seqno {
                seqno
            } else {
                old(self).seqno
            },
            final(self).index == old(self).index,
            final(self).peer_acks == old(self).peer_acks,
    {
        if seqno > self.seqno {
            self.seqno = seqno;
        }
    }

    /// The lowest `last_acked` among the peers.
    pub fn lowest_acked(&self) -> (m: InpSeqno)
        ensures
            m == min_acked(self.peer_acks@),
    {
        let mut m: InpSeqno = u64::MAX;
        let mut k: usize = 0;
        while k < self.peer_acks.len()
            invariant
                k <= self.peer_acks@.len(),
                m == min_acked(self.peer_acks@.take(k as int)),
            decreases self.peer_acks@.len() - k,
        {
            proof {
                assert(self.peer_acks@.take(k + 1).drop_last() =~= self.peer_acks@.take(k as int));
            }
            if self.peer_acks[k].last_acked < m {
                m = self.peer_acks[k].last_acked;
            }
            k += 1;
        }
        assert(self.peer_acks@.take(self.peer_acks@.len() as int) =~= self.peer_acks@);
        m
    }

    /// Takes the entries whose sequence number is at most `min` off the
    /// index, and returns the acknowledgements that their publisher now gets,
    /// oldest first: a PUBACK for quality of service 1, a PUBREC for quality of
    /// service 2.
    #[verifier::rlimit(40)]
    pub fn evict(&mut self, min: InpSeqno) -> (acks: Vec<Packet>)
        requires
            old(self).wf(),
        ensures
            final(self).wf(),
            final(self).seqno == old(self).seqno,
            final(self).peer_acks == old(self).peer_acks,
            ({
                let k = settled(old(self).index@, min);
                &&& 0 <= k <= old(self).index@.len()
                &&& acks@ == acks_of(old(self).index@.subrange(0, k))
                &&& final(self).index@ == old(self).index@.subrange(k, old(self).index@.len() as int)
            }),
            forall|i: int| 0 <= i < final(self).index@.len() ==> (#[trigger] final(self).index@[i]).inp_seqno > min,
    {
        let ghost orig = self.index@;
        let mut acks: Vec<Packet> = Vec::new();
        let mut k: usize = 0;
        assert(orig.subrange(0, orig.len() as int) =~= orig);
        while k < self.index.len() && self.index[k].inp_seqno <= min
            invariant
                self.index@ == orig,
                k <= orig.len(),
                settled(orig, min) == k + settled(orig.subrange(k as int, orig.len() as int), min),
                acks@ == acks_of(orig.subrange(0, k as int)),
            decreases orig.len() - k,
        {
            let e = self.index[k];
            let ack = match e.qos {
                QoS::ExactlyOnce => Packet::PubRec(
                    PubARLC {
                        packet_type: PacketType::PubRec,
                        packet_id: e.packet_id,
                        code: ReasCode::Success,
                        properties: None,
                    },
                ),
                _ => Packet::PubAck(
                    PubARLC {
                        packet_type: PacketType::PubAck,
                        packet_id: e.packet_id,
                        code: ReasCode::Success,
                        properties: None,
                    },
                ),
            };
            acks.push(ack);
            proof {
                let tail = orig.subrange(k as int, orig.len() as int);
                assert(tail.subrange(1, tail.len() as int) =~= orig.subrange(
                    k + 1,
                    orig.len() as int,
                ));
                assert(acks@ =~= acks_of(orig.subrange(0, k + 1)));
            }
            k += 1;
        }
        let rest = self.index.split_off(k);
        self.index = rest;
        proof {
            let tail = orig.subrange(k as int, orig.len() as int);
            assert(settled(tail, min) == 0);
            assert forall|i: int| 0 <= i < tail.len() implies (#[trigger] tail[i]).inp_seqno > min by {
                if i > 0 {
                    assert(orig[k as int].inp_seqno < orig[k + i].inp_seqno);
                }
            }
            assert forall|i: int, j: int| 0 <= i < j < tail.len() implies (
            #[trigger] tail[i]).inp_seqno < (#[trigger] tail[j]).inp_seqno && tail[i].packet_id
                != tail[j].packet_id by {
                assert(orig[k + i].inp_seqno < orig[k + j].inp_seqno);
                assert(orig[k + i].packet_id != orig[k + j].packet_id);
            }
        }
        acks
    }

    /// A peer shard says that it has delivered everything up to `last_acked`.
    /// The entry of the peer is brought up to date; an acknowledgement never
    /// takes back an earlier one, and one from a shard that is not booked
    /// counts for nothing. Then every PUBLISH that all peers have acknowledged
    /// is acknowledged to its publisher, and leaves the index: the packets to
    /// send are returned, oldest first.
    pub fn on_local_ack(&mut self, shard_id: u32, last_acked: InpSeqno, now: u64) -> (acks: Vec<
        Packet,
    >)
        requires
            old(self).wf(),
        ensures
            final(self).wf(),
            final(self).seqno == old(self).seqno,
            final(self).peer_acks@ == acked_by(old(self).peer_acks@, shard_id, last_acked, now),
            ({
                let min = min_acked(final(self).peer_acks@);
                let k = settled(old(self).index@, min);
                &&& 0 <= k <= old(self).index@.len()
                &&& acks@ == acks_of(old(self).index@.subrange(0, k))
                &&& final(self).index@ == old(self).index@.subrange(k, old(self).index@.len() as int)
                &&& forall|i: int|
                    0 <= i < final(self).index@.len() ==> (#[trigger] final(self).index@[i]).inp_seqno
                        > min
            }),
    {
        match self.find_peer(shard_id) {
            Some(k) => {
                let ghost before = self.peer_acks@;
                let old_entry = self.peer_acks[k];
                if last_acked > old_entry.last_acked {
                    let fresh = PeerAck { shard_id, last_acked, last_ack_time: now };
                    self.peer_acks.set(k, fresh);
                    proof {
                        assert(first_peer(before, shard_id) == k as int) by {
                            lemma_first_peer(before, shard_id, k as int);
                        }
                        assert forall|i: int, j: int|
                            0 <= i < j < self.peer_acks@.len() implies (
                        #[trigger] self.peer_acks@[i]).shard_id != (
                        #[trigger] self.peer_acks@[j]).shard_id by {
                            assert(before[i].shard_id != before[j].shard_id);
                        }
                    }
                } else {
                    proof {
                        lemma_first_peer(before, shard_id, k as int);
                    }
                }
            },
            None => {
                proof {
                    lemma_first_peer_none(self.peer_acks@, shard_id);
                }
            },
        }
        let min = self.lowest_acked();
        self.evict(min)
    }
}

/// The index of the first entry of `peers` for the shard `shard_id`, or the
/// length of `peers` if there is none.
pub open spec fn first_peer(peers: Seq<PeerAck>, shard_id: u32) -> int
    decreases peers.len(),
{
    if peers.len() == 0 || peers[0].shard_id == shard_id {
        0
    } else {
        1 + first_peer(peers.subrange(1, peers.len() as int), shard_id)
    }
}

/// The peers after the shard `shard_id` has acknowledged up to `last_acked`:
/// its entry holds the higher of what it had and `last_acked`.
pub open spec fn acked_by(peers: Seq<PeerAck>, shard_id: u32, last_acked: InpSeqno, now: u64) -> Seq<
    PeerAck,
> {
    let k = first_peer(peers, shard_id);
    if k < peers.len() && last_acked > peers[k].last_acked {
        peers.update(k, PeerAck { shard_id, last_acked, last_ack_time: now })
    } else {
        peers
    }
}

/// Where the entry at `k` is for the shard and no two entries are for the
/// same shard, `k` is the first entry for the shard.
pub proof fn lemma_first_peer(peers: Seq<PeerAck>, shard_id: u32, k: int)
    requires
        0 <= k < peers.len(),
        peers[k].shard_id == shard_id,
        forall|i: int, j: int|
            0 <= i < j < peers.len() ==> (#[trigger] peers[i]).shard_id != (#[trigger] peers[j]).shard_id,
    ensures
        first_peer(peers, shard_id) == k,
    decreases peers.len(),
{
    if k > 0 {
        let rest = peers.subrange(1, peers.len() as int);
        assert(peers[0].shard_id != peers[k].shard_id);
        assert forall|i: int, j: int| 0 <= i < j < rest.len() implies (#[trigger] rest[i]).shard_id != (
        #[trigger] rest[j]).shard_id by {
            assert(peers[i + 1].shard_id != peers[j + 1].shard_id);
        }
        lemma_first_peer(rest, shard_id, k - 1);
    }
}

/// Where no entry is for the shard, the first entry for it is past the end.
pub proof fn lemma_first_peer_none(peers: Seq<PeerAck>, shard_id: u32)
    requires
        !peer_booked(peers, shard_id),
    ensures
        first_peer(peers, shard_id) == peers.len(),
    decreases peers.len(),
{
    if peers.len() > 0 {
        assert(peers[0].shard_id != shard_id);
        let rest = peers.subrange(1, peers.len() as int);
        assert forall|k: int| 0 <= k < rest.len() implies (#[trigger] rest[k]).shard_id != shard_id by {
            assert(peers[k + 1].shard_id != shard_id);
        }
        lemma_first_peer_none(rest, shard_id);
    }
}

/// What `settled` counts are the entries of at most `min`; where the sequence
/// numbers rise, all entries behind them are above `min`.
pub proof fn lemma_settled(index: Seq<InpEntry>, min: InpSeqno)
    ensures
        0 <= settled(index, min) <= index.len(),
        forall|i: int| 0 <= i < settled(index, min) ==> (#[trigger] index[i]).inp_seqno <= min,
        rising(index) ==> forall|i: int|
            settled(index, min) <= i < index.len() ==> (#[trigger] index[i]).inp_seqno > min,
    decreases index.len(),
{
    if index.len() > 0 && index[0].inp_seqno <= min {
        let rest = index.subrange(1, index.len() as int);
        lemma_settled(rest, min);
        assert forall|i: int| 0 <= i < settled(index, min) implies (#[trigger] index[i]).inp_seqno
            <= min by {
            if i > 0 {
                assert(rest[i - 1] == index[i]);
            }
        }
        if rising(index) {
            assert forall|i: int, j: int| 0 <= i < j < rest.len() implies (#[trigger] rest[i]).inp_seqno < (
            #[trigger] rest[j]).inp_seqno by {
                assert(index[i + 1].inp_seqno < index[j + 1].inp_seqno);
            }
            assert forall|i: int| settled(index, min) <= i < index.len() implies (
            #[trigger] index[i]).inp_seqno > min by {
                assert(rest[i - 1] == index[i]);
            }
        }
    } else if rising(index) && index.len() > 0 {
        assert forall|i: int| 0 <= i < index.len() implies (#[trigger] index[i]).inp_seqno > min by {
            if i > 0 {
                assert(index[0].inp_seqno < index[i].inp_seqno);
            }
        }
    }
}

/// Where the sequence numbers rise, the entries that are settled are exactly
/// those of at most `min`.
pub proof fn lemma_settled_exact(index: Seq<InpEntry>, min: InpSeqno, k: int)
    requires
        rising(index),
        0 <= k <= index.len(),
        forall|i: int| 0 <= i < k ==> (#[trigger] index[i]).inp_seqno <= min,
        forall|i: int| k <= i < index.len() ==> (#[trigger] index[i]).inp_seqno > min,
    ensures
        settled(index, min) == k,
{
    lemma_settled(index, min);
    let n = settled(index, min);
    if n < k {
        assert(index[n].inp_seqno <= min);
    } else if n > k {
        assert(index[k].inp_seqno > min);
    }
}

/// Acknowledged exactly once: a PUBLISH that all peers have acknowledged is
/// acknowledged to its publisher when that is first seen, and never again.
/// Taking off the index what `min1` settles and then, from what is left, what
/// the higher `min2` settles, gives one after the other the acknowledgements
/// that taking off once with `min2` gives, and leaves the same entries.
#[verifier::rlimit(40)]
pub proof fn law_ack_exactly_once(index: Seq<InpEntry>, min1: InpSeqno, min2: InpSeqno)
    requires
        rising(index),
        min1 <= min2,
    ensures
        ({
            let k1 = settled(index, min1);
            let rest = index.subrange(k1, index.len() as int);
            let k2 = settled(rest, min2);
            let k = settled(index, min2);
            &&& k1 + k2 == k
            &&& acks_of(index.subrange(0, k1)) + acks_of(rest.subrange(0, k2)) == acks_of(
                index.subrange(0, k),
            )
            &&& rest.subrange(k2, rest.len() as int) == index.subrange(k, index.len() as int)
        }),
{
    lemma_settled(index, min1);
    lemma_settled(index, min2);
    let k1 = settled(index, min1);
    let k = settled(index, min2);
    let rest = index.subrange(k1, index.len() as int);
    if k < k1 {
        assert(index[k].inp_seqno > min2);
        assert(index[k].inp_seqno <= min1);
    }
    assert forall|i: int, j: int| 0 <= i < j < rest.len() implies (#[trigger] rest[i]).inp_seqno < (
    #[trigger] rest[j]).inp_seqno by {
        assert(index[k1 + i].inp_seqno < index[k1 + j].inp_seqno);
    }
    assert forall|i: int| 0 <= i < k - k1 implies (#[trigger] rest[i]).inp_seqno <= min2 by {
        assert(index[k1 + i].inp_seqno <= min2);
    }
    assert forall|i: int| k - k1 <= i < rest.len() implies (#[trigger] rest[i]).inp_seqno > min2 by {
        assert(index[k1 + i].inp_seqno > min2);
    }
    lemma_settled_exact(rest, min2, k - k1);
    let k2 = k - k1;
    assert(acks_of(index.subrange(0, k1)) + acks_of(rest.subrange(0, k2)) =~= acks_of(
        index.subrange(0, k),
    ));
    assert(rest.subrange(k2, rest.len() as int) =~= index.subrange(k, index.len() as int));
}

/// A PUBLISH is acknowledged to its publisher as soon as every peer has
/// acknowledged its sequence number, and not before: the entry at `i` is
/// among those that `min` settles exactly when its sequence number is at
/// most `min`.
pub proof fn law_ack_when_all_acked(index: Seq<InpEntry>, min: InpSeqno, i: int)
    requires
        rising(index),
        0 <= i < index.len(),
    ensures
        i < settled(index, min) <==> index[i].inp_seqno <= min,
{
    lemma_settled(index, min);
}

/// The lowest acknowledgement is at most that of every peer, and it has
/// reached a sequence number once every peer has.
pub proof fn law_lowest_acked(peers: Seq<PeerAck>, seqno: InpSeqno)
    ensures
        forall|k: int| 0 <= k < peers.len() ==> min_acked(peers) <= (#[trigger] peers[k]).last_acked,
        (forall|k: int| 0 <= k < peers.len() ==> (#[trigger] peers[k]).last_acked >= seqno)
            ==> min_acked(peers) >= seqno,
    decreases peers.len(),
{
    if peers.len() > 0 {
        let rest = peers.drop_last();
        law_lowest_acked(rest, seqno);
        assert forall|k: int| 0 <= k < peers.len() implies min_acked(peers) <= (
        #[trigger] peers[k]).last_acked by {
            if k < rest.len() {
                assert(rest[k] == peers[k]);
            }
        }
        if forall|k: int| 0 <= k < peers.len() ==> (#[trigger] peers[k]).last_acked >= seqno {
            assert forall|k: int| 0 <= k < rest.len() implies (#[trigger] rest[k]).last_acked
                >= seqno by {
                assert(rest[k] == peers[k]);
            }
            assert(peers[peers.len() - 1].last_acked >= seqno);
        }
    }
}

/// A PUBLISH is not acknowledged to its publisher before a shard that was
/// booked for it has acknowledged anything: a shard that joins has
/// acknowledged nothing, so that the lowest acknowledgement is 0 and settles
/// none of the entries that wait.
pub proof fn law_new_peer_holds_back(
    peers: Seq<PeerAck>,
    shard_id: u32,
    now: u64,
    index: Seq<InpEntry>,
)
    requires
        !peer_booked(peers, shard_id),
        forall|i: int| 0 <= i < index.len() ==> (#[trigger] index[i]).inp_seqno >= 1,
    ensures
        min_acked(with_peer(peers, shard_id, now)) == 0,
        settled(index, min_acked(with_peer(peers, shard_id, now))) == 0,
{
    let joined = with_peer(peers, shard_id, now);
    law_lowest_acked(joined, 0);
    assert(joined[joined.len() - 1].last_acked == 0);
}

/// The subscriptions that a PUBLISH matched on one shard.
pub struct ShardGroup {
    pub shard_id: u32,
    pub subscriptions: Vec<Subscription>,
}

/// The subscriptions that a PUBLISH matched on one shard, as values.
pub ghost struct GroupView {
    pub shard_id: u32,
    pub subscriptions: Seq<Subscription>,
}

impl View for ShardGroup {
    type V = GroupView;

    open spec fn view(&self) -> GroupView {
        GroupView { shard_id: self.shard_id, subscriptions: self.subscriptions@ }
    }
}

/// The views of groups, in order.
pub open spec fn groups_view(gs: Seq<ShardGroup>) -> Seq<GroupView> {
    Seq::new(gs.len(), |k: int| gs[k]@)
}

/// The index of the group of the shard `shard_id`, or the number of groups if
/// the shard has none.
pub open spec fn group_index(gs: Seq<GroupView>, shard_id: u32) -> int
    decreases gs.len(),
{
    if gs.len() == 0 || gs[0].shard_id == shard_id {
        0
    } else {
        1 + group_index(gs.subrange(1, gs.len() as int), shard_id)
    }
}

/// The groups with `sub` put behind the subscriptions of its shard; a shard
/// that has no group yet gets one, behind the others.
pub open spec fn group_add(gs: Seq<GroupView>, sub: Subscription) -> Seq<GroupView> {
    let k = group_index(gs, sub.shard_id);
    if k < gs.len() {
        gs.update(
            k,
            GroupView { shard_id: gs[k].shard_id, subscriptions: gs[k].subscriptions.push(sub) },
        )
    } else {
        gs.push(GroupView { shard_id: sub.shard_id, subscriptions: seq![sub] })
    }
}

/// The subscriptions `subs` by shard: one group for each shard, in the order
/// in which the shards first occur, each with the subscriptions of its shard
/// in their order.
pub open spec fn group_all(subs: Seq<Subscription>) -> Seq<GroupView>
    decreases subs.len(),
{
    if subs.len() == 0 {
        Seq::empty()
    } else {
        group_add(group_all(subs.drop_last()), subs.last())
    }
}

/// No two groups are for the same shard.
pub open spec fn groups_distinct(gs: Seq<GroupView>) -> bool {
    forall|i: int, j: int|
        0 <= i < j < gs.len() ==> (#[trigger] gs[i]).shard_id != (#[trigger] gs[j]).shard_id
}

/// What `group_index` finds is the group of the shard, and no group before it
/// is.
pub proof fn lemma_group_index(gs: Seq<GroupView>, shard_id: u32)
    ensures
        0 <= group_index(gs, shard_id) <= gs.len(),
        group_index(gs, shard_id) < gs.len() ==> gs[group_index(gs, shard_id)].shard_id == shard_id,
        forall|i: int| 0 <= i < group_index(gs, shard_id) ==> (#[trigger] gs[i]).shard_id != shard_id,
    decreases gs.len(),
{
    if gs.len() > 0 && gs[0].shard_id != shard_id {
        let rest = gs.subrange(1, gs.len() as int);
        lemma_group_index(rest, shard_id);
        assert forall|i: int| 0 <= i < group_index(gs, shard_id) implies (#[trigger] gs[i]).shard_id
            != shard_id by {
            if i > 0 {
                assert(rest[i - 1] == gs[i]);
            }
        }
    }
}

/// Grouping puts every subscription with its own shard, and makes one group
/// for each shard: no two groups are for the same shard, no group is empty,
/// and every subscription of a group is for the shard of the group.
pub proof fn law_groups(subs: Seq<Subscription>)
    ensures
        groups_distinct(group_all(subs)),
        forall|k: int|
            0 <= k < group_all(subs).len() ==> (#[trigger] group_all(subs)[k]).subscriptions.len()
                > 0,
        forall|k: int, i: int|
            0 <= k < group_all(subs).len() && 0 <= i < group_all(subs)[k].subscriptions.len()
                ==> (#[trigger] group_all(subs)[k].subscriptions[i]).shard_id == group_all(
                subs,
            )[k].shard_id,
    decreases subs.len(),
{
    if subs.len() > 0 {
        let before = group_all(subs.drop_last());
        let sub = subs.last();
        law_groups(subs.drop_last());
        lemma_group_index(before, sub.shard_id);
        let after = group_all(subs);
        assert(after == group_add(before, sub));
        assert forall|i: int, j: int| 0 <= i < j < after.len() implies (#[trigger] after[i]).shard_id != (
        #[trigger] after[j]).shard_id by {
            if j < before.len() {
                assert(before[i].shard_id != before[j].shard_id);
            }
        }
        assert forall|k: int, i: int|
            0 <= k < after.len() && 0 <= i < after[k].subscriptions.len() implies (
        #[trigger] after[k].subscriptions[i]).shard_id == after[k].shard_id by {
            if k < before.len() && i < before[k].subscriptions.len() {
                assert(before[k].subscriptions[i].shard_id == before[k].shard_id);
            }
        }
    }
}

/// Sorts subscriptions by shard: one group for each shard, in the order in
/// which the shards first occur, each with the subscriptions of its shard in
/// their order.
#[verifier::rlimit(40)]
pub fn group_by_shard(subs: Vec<Subscription>) -> (groups: Vec<ShardGroup>)
    ensures
        groups_view(groups@) == group_all(subs@),
{
    let ghost orig = subs@;
    let mut rest = reversed(subs);
    let mut groups: Vec<ShardGroup> = Vec::new();
    let ghost mut done: int = 0;
    assert(groups_view(groups@) =~= group_all(orig.take(0)));
    loop
        invariant
            orig == subs@,
            0 <= done <= orig.len(),
            rest@.len() == orig.len() - done,
            rest@ == orig.subrange(done, orig.len() as int).reverse(),
            groups_view(groups@) == group_all(orig.take(done)),
        decreases orig.len() - done,
    {
        match rest.pop() {
            None => {
                assert(orig.take(done) =~= orig);
                return groups;
            },
            Some(sub) => {
                assert(sub == orig[done]);
                let ghost gv = groups_view(groups@);
                proof {
                    assert(orig.take(done + 1).drop_last() =~= orig.take(done));
                    assert(orig.take(done + 1).last() == sub);
                    assert(rest@ =~= orig.subrange(done + 1, orig.len() as int).reverse());
                }
                let k = find_group(&groups, sub.shard_id);
                if k < groups.len() {
                    let g = groups.remove(k);
                    let mut list = g.subscriptions;
                    list.push(sub);
                    groups.insert(k, ShardGroup { shard_id: g.shard_id, subscriptions: list });
                    assert(groups_view(groups@) =~= group_add(gv, sub));
                } else {
                    let shard_id = sub.shard_id;
                    let mut list: Vec<Subscription> = Vec::new();
                    list.push(sub);
                    groups.push(ShardGroup { shard_id, subscriptions: list });
                    assert(groups_view(groups@) =~= group_add(gv, sub));
                }
                proof {
                    done = done + 1;
                }
            },
        }
    }
}

/// The index of the group of the shard `shard_id`, or the number of groups if
/// the shard has none.
fn find_group(groups: &Vec<ShardGroup>, shard_id: u32) -> (k: usize)
    ensures
        k == group_index(groups_view(groups@), shard_id),
        k <= groups@.len(),
{
    let ghost gv = groups_view(groups@);
    let mut k: usize = 0;
    assert(gv.subrange(0, gv.len() as int) =~= gv);
    while k < groups.len()
        invariant
            k <= groups@.len(),
            gv == groups_view(groups@),
            group_index(gv, shard_id) == k + group_index(
                gv.subrange(k as int, gv.len() as int),
                shard_id,
            ),
        decreases groups@.len() - k,
    {
        let ghost tail = gv.subrange(k as int, gv.len() as int);
        assert(tail[0] == groups@[k as int]@);
        if groups[k].shard_id == shard_id {
            return k;
        }
        assert(tail.subrange(1, tail.len() as int) =~= gv.subrange(k + 1, gv.len() as int));
        k += 1;
    }
    k
}

/// The stages in the life of a session.
#[derive(Clone, Copy, Debug, PartialEq, Eq, Structural)]
pub enum SessionState {
    /// The connection is accepted, the CONNACK has not gone out.
    Accepting,
    /// The client is connected.
    Active,
    /// The client is gone and may come back to the session.
    Reconnecting,
    /// The session has ended.
    Closed,
}

/// A message for a peer shard.
#[derive(Clone, Eq, PartialEq, Debug)]
pub struct Routed {
    /// The shard that the message goes to.
    pub dest: u32,
    pub message: Message,
}

/// What became of a PUBLISH that a client sent.
#[derive(Clone, Eq, PartialEq, Debug)]
pub struct Routing {
    /// The sequence number that the PUBLISH was given.
    pub inp_seqno: InpSeqno,
    /// One message for each shard that hosts a subscriber.
    pub routed: Vec<Routed>,
    /// The acknowledgement that the publisher gets at once, where nobody
    /// subscribes.
    pub reply: Option<Packet>,
}

/// The message `r` routes the PUBLISH `publish`, which the client `client_id`
/// on the shard `shard_id` sent and which was given the sequence number `n`,
/// to the subscriptions of the group `g`.
pub open spec fn routes(
    r: Routed,
    client_id: Seq<u8>,
    shard_id: u32,
    n: InpSeqno,
    publish: crate::v5::publish::PublishView,
    g: GroupView,
) -> bool {
    &&& r.dest == g.shard_id
    &&& r.message matches Message::Routed {
        src_client_id,
        src_shard_id,
        inp_seqno,
        packet_id,
        publish: p,
        subscriptions,
    }
    &&& src_client_id@ == client_id
    &&& src_shard_id == shard_id
    &&& inp_seqno == n
    &&& packet_id == publish.packet_id
    &&& p@ == publish
    &&& subscriptions@ == g.subscriptions
}

/// The peers with the shard `shard_id` booked: a shard that was not among
/// them joins at the end, and has acknowledged nothing.
pub open spec fn with_peer(peers: Seq<PeerAck>, shard_id: u32, now: u64) -> Seq<PeerAck> {
    if peer_booked(peers, shard_id) {
        peers
    } else {
        peers.push(PeerAck { shard_id, last_acked: 0, last_ack_time: now })
    }
}

/// The peers with the shard of each of `groups` booked, in order.
pub open spec fn with_peers(peers: Seq<PeerAck>, groups: Seq<GroupView>, now: u64) -> Seq<PeerAck>
    decreases groups.len(),
{
    if groups.len() == 0 {
        peers
    } else {
        with_peer(with_peers(peers, groups.drop_last(), now), groups.last().shard_id, now)
    }
}

/// The inbound side `after` is the inbound side `before` of the session
/// `sess` once it has taken in the PUBLISH `publish`, which matched
/// `subscriptions`, with the outcome `r`: the PUBLISH has the next sequence
/// number; one message goes to each shard that hosts a subscriber, and each
/// such shard is booked as a peer; where nobody subscribes, a PUBLISH above
/// quality of service 0 is answered with "no matching subscribers", else it
/// is booked until the peers have acknowledged it.
pub open spec fn took_in(
    before: ClientInp,
    after: ClientInp,
    sess: Session,
    publish: Publish,
    subscriptions: Seq<Subscription>,
    now: u64,
    r: Routing,
) -> bool {
    let groups = group_all(subscriptions);
    let entry = InpEntry {
        packet_id: publish.packet_id->Some_0,
        inp_seqno: r.inp_seqno,
        qos: publish.qos,
    };
    &&& publish.qos != QoS::AtMostOnce ==> !id_waits(before.index@, publish.packet_id->Some_0)
    &&& r.inp_seqno == before.seqno
    &&& after.seqno == before.seqno + 1
    &&& r.routed@.len() == groups.len()
    &&& forall|k: int|
        0 <= k < groups.len() ==> routes(
            #[trigger] r.routed@[k],
            sess.client_id@,
            sess.shard_id,
            r.inp_seqno,
            publish@,
            groups[k],
        )
    &&& after.peer_acks@ == with_peers(before.peer_acks@, groups, now)
    &&& r.reply == if subscriptions.len() == 0 && publish.qos != QoS::AtMostOnce {
        Some(ack_of(entry, ReasCode::NoMatchingSubscribers))
    } else {
        None
    }
    &&& after.index@ == if subscriptions.len() == 0 || publish.qos == QoS::AtMostOnce {
        before.index@
    } else {
        before.index@.push(entry)
    }
}

/// Per-client broker state.
pub struct Session {
    pub client_id: ClientID,
    pub shard_id: u32,
    pub state: SessionState,
    pub inp: ClientInp,
    pub out: ClientOut,
}

impl Session {
    pub open spec fn wf(self) -> bool {
        self.inp.wf() && self.out.wf()
    }

    /// The session of the client `client_id` on the shard `shard_id`, before
    /// its CONNACK has gone out.
    pub fn new(client_id: ClientID, shard_id: u32, receive_maximum: u16, back_log_cap: usize) -> (sess: Session)
        requires
            receive_maximum >= 1,
        ensures
            sess.wf(),
            sess.client_id == client_id,
            sess.shard_id == shard_id,
            sess.state == SessionState::Accepting,
            sess.inp.seqno == 1,
            sess.out.seqno == 1,
            sess.out.receive_maximum == receive_maximum,
            sess.out.back_log_cap == back_log_cap,
            sess.out.inflight@.len() == 0,
            sess.out.back_log@.len() == 0,
            sess.inp.index@.len() == 0,
    {
        Session {
            client_id,
            shard_id,
            state: SessionState::Accepting,
            inp: ClientInp::new(),
            out: ClientOut::new(receive_maximum, back_log_cap),
        }
    }

    pub fn as_client_id(&self) -> (id: &ClientID)
        ensures
            *id == self.client_id,
    {
        &self.client_id
    }

    pub fn to_shard_id(&self) -> (id: u32)
        ensures
            id == self.shard_id,
    {
        self.shard_id
    }

    /// Takes in a PUBLISH that the client sent and that matched
    /// `subscriptions`.
    ///
    /// The PUBLISH is given the next sequence number. Where nobody subscribes,
    /// a PUBLISH above quality of service 0 is acknowledged at once with "no
    /// matching subscribers". Else it is booked until the peers have
    /// acknowledged it, every shard that hosts a subscriber is booked as a
    /// peer, and one message is made for each such shard, with all of the
    /// shard's subscriptions.
    ///
    /// A packet identifier that still waits for its acknowledgement is refused
    /// with "packet identifier in use", and nothing changes.
    #[verifier::rlimit(40)]
    pub fn publish_in(&mut self, publish: Publish, subscriptions: Vec<Subscription>, now: u64) -> (res: Result<
        Routing,
        Error,
    >)
        requires
            old(self).wf(),
            old(self).inp.seqno < u64::MAX,
            publish@.spec_validate() is Ok,
        ensures
            final(self).wf(),
            final(self).client_id == old(self).client_id,
            final(self).shard_id == old(self).shard_id,
            final(self).state == old(self).state,
            final(self).out == old(self).out,
            match res {
                Err(e) => {
                    &&& e == packet_id_in_use()
                    &&& publish.qos != QoS::AtMostOnce
                    &&& id_waits(old(self).inp.index@, publish.packet_id->Some_0)
                    &&& final(self).inp == old(self).inp
                },
                Ok(r) => took_in(
                    old(self).inp,
                    final(self).inp,
                    *old(self),
                    publish,
                    subscriptions@,
                    now,
                    r,
                ),
            },
    {
        let qos0 = match publish.qos {
            QoS::AtMostOnce => true,
            _ => false,
        };
        if subscriptions.len() == 0 {
            let reply = if qos0 {
                None
            } else {
                let id = match publish.packet_id {
                    Some(id) => id,
                    None => unreached(),
                };
                if self.inp.waits(id) {
                    return Err(
                        Error::new(ErrorKind::ProtocolError, ReasonCode::PacketIdentifierInUse),
                    );
                }
                let t = match publish.qos {
                    QoS::ExactlyOnce => PacketType::PubRec,
                    _ => PacketType::PubAck,
                };
                let ack = PubARLC {
                    packet_type: t,
                    packet_id: id,
                    code: ReasCode::NoMatchingSubscribers,
                    properties: None,
                };
                match publish.qos {
                    QoS::ExactlyOnce => Some(Packet::PubRec(ack)),
                    _ => Some(Packet::PubAck(ack)),
                }
            };
            let n = self.inp.seqno;
            self.inp.seqno = n + 1;
            assert(group_all(subscriptions@) =~= Seq::<GroupView>::empty());
            return Ok(Routing { inp_seqno: n, routed: Vec::new(), reply });
        }
        let n = match self.inp.record(&publish) {
            Err(e) => {
                return Err(e);
            },
            Ok(n) => n,
        };
        let ghost recorded = self.inp.index@;
        let groups = group_by_shard(subscriptions);
        let ghost gv = groups_view(groups@);
        let ghost total = gv.len() as int;
        let mut rest = reversed(groups);
        let mut routed: Vec<Routed> = Vec::new();
        loop
            invariant
                self.inp.wf(),
                old(self).wf(),
                n == old(self).inp.seqno,
                gv == group_all(subscriptions@),
                subscriptions@.len() > 0,
                publish.qos != QoS::AtMostOnce ==> !id_waits(
                    old(self).inp.index@,
                    publish.packet_id->Some_0,
                ),
                recorded == if publish.qos == QoS::AtMostOnce {
                    old(self).inp.index@
                } else {
                    old(self).inp.index@.push(
                        InpEntry {
                            packet_id: publish.packet_id->Some_0,
                            inp_seqno: n,
                            qos: publish.qos,
                        },
                    )
                },
                self.out == old(self).out,
                self.client_id == old(self).client_id,
                self.shard_id == old(self).shard_id,
                self.state == old(self).state,
                self.inp.seqno == n + 1,
                self.inp.index@ == recorded,
                total == gv.len(),
                routed@.len() <= total,
                rest@.len() == total - routed@.len(),
                forall|k: int|
                    0 <= k < rest@.len() ==> (#[trigger] rest@[k])@ == gv[total - 1 - k],
                forall|k: int|
                    0 <= k < routed@.len() ==> routes(
                        #[trigger] routed@[k],
                        self.client_id@,
                        self.shard_id,
                        n,
                        publish@,
                        gv[k],
                    ),
                self.inp.peer_acks@ == with_peers(
                    old(self).inp.peer_acks@,
                    gv.take(routed@.len() as int),
                    now,
                ),
            decreases rest@.len(),
        {
            let ghost sofar = routed@;
            match rest.pop() {
                None => {
                    assert(gv.take(total) =~= gv);
                    return Ok(Routing { inp_seqno: n, routed, reply: None });
                },
                Some(g) => {
                    assert(g@ == gv[sofar.len() as int]);
                    self.inp.book_peer(g.shard_id, now);
                    let message = Message::Routed {
                        src_client_id: ClientID(crate::v5::publish::copy_string(&self.client_id.0)),
                        src_shard_id: self.shard_id,
                        inp_seqno: n,
                        packet_id: publish.packet_id,
                        publish: publish.duplicate(),
                        subscriptions: g.subscriptions,
                    };
                    routed.push(Routed { dest: g.shard_id, message });
                    proof {
                        let done = routed@.len() as int;
                        assert(gv.take(done).drop_last() =~= gv.take(done - 1));
                        assert(gv.take(done).last() == gv[done - 1]);
                        assert forall|k: int| 0 <= k < routed@.len() implies routes(
                            #[trigger] routed@[k],
                            self.client_id@,
                            self.shard_id,
                            n,
                            publish@,
                            gv[k],
                        ) by {
                            if k < sofar.len() {
                                assert(routed@[k] == sofar[k]);
                            }
                        }
                    }
                },
            }
        }
    }
}

/// The lower of two qualities of service.
pub open spec fn min_qos(a: QoS, b: QoS) -> QoS {
    if a.spec_to_u8() <= b.spec_to_u8() {
        a
    } else {
        b
    }
}

/// The reason codes that answer the filters `filters` of a SUBSCRIBE: for each
/// filter the quality of service that it asks for, which is granted.
pub open spec fn granted(filters: Seq<crate::v5::sub::SubscribeFilterView>) -> Seq<u8> {
    Seq::new(filters.len(), |k: int| filters[k].opt.qos_bits())
}

impl Session {
    /// The client's CONNECT has been accepted: the session is active, allows as
    /// many deliveries in flight as the client says, and a CONNACK with
    /// "success" is queued toward the client. A CONNECT that names a receive
    /// maximum below the number of deliveries that the session has in flight
    /// keeps the session's old one. A backlog that is full disconnects the
    /// client with "quota exceeded".
    pub fn on_connect(&mut self, connect: &Connect, session_present: bool) -> (res: Result<
        (),
        Error,
    >)
        requires
            old(self).wf(),
            connect@.spec_validate() is Ok,
        ensures
            final(self).wf(),
            final(self).client_id == old(self).client_id,
            final(self).shard_id == old(self).shard_id,
            final(self).inp == old(self).inp,
            final(self).out.inflight == old(self).out.inflight,
            final(self).out.seqno == old(self).out.seqno,
            final(self).out.next_packet_id == old(self).out.next_packet_id,
            final(self).out.back_log_cap == old(self).out.back_log_cap,
            res is Ok <==> old(self).out.back_log@.len() < old(self).out.back_log_cap,
            match res {
                Ok(()) => {
                    &&& final(self).state == SessionState::Active
                    &&& final(self).out.back_log@ == old(self).out.back_log@.push(
                        Message::ClientAck {
                            packet: Packet::ConnAck(
                                ConnAck { session_present, code: 0, properties: None },
                            ),
                        },
                    )
                    &&& final(self).out.receive_maximum == if connect.spec_receive_maximum()
                        >= old(self).out.inflight@.len() {
                        connect.spec_receive_maximum()
                    } else {
                        old(self).out.receive_maximum
                    }
                },
                Err(e) => {
                    &&& e == quota_exceeded()
                    &&& final(self).out.back_log@ == old(self).out.back_log@
                    &&& final(self).out.receive_maximum == old(self).out.receive_maximum
                    &&& final(self).state == old(self).state
                },
            },
    {
        let ack = Packet::ConnAck(ConnAck::new_success(session_present));
        match self.out.queue_ack(ack) {
            Err(e) => Err(e),
            Ok(()) => {
                let rm = connect.receive_maximum();
                if rm as usize >= self.out.inflight.len() {
                    self.out.receive_maximum = rm;
                }
                self.state = SessionState::Active;
                Ok(())
            },
        }
    }

    /// The client subscribes: a SUBACK with the packet identifier of the
    /// SUBSCRIBE is queued toward the client, which grants each filter the
    /// quality of service that it asks for. A backlog that is full disconnects
    /// the client with "quota exceeded".
    #[verifier::rlimit(40)]
    pub fn on_subscribe(&mut self, sub: &Subscribe) -> (res: Result<(), Error>)
        requires
            old(self).wf(),
            sub@.spec_validate() is Ok,
        ensures
            final(self).wf(),
            final(self).client_id == old(self).client_id,
            final(self).shard_id == old(self).shard_id,
            final(self).state == old(self).state,
            final(self).inp == old(self).inp,
            final(self).out.inflight == old(self).out.inflight,
            final(self).out.seqno == old(self).out.seqno,
            final(self).out.receive_maximum == old(self).out.receive_maximum,
            final(self).out.next_packet_id == old(self).out.next_packet_id,
            final(self).out.back_log_cap == old(self).out.back_log_cap,
            res is Ok <==> old(self).out.back_log@.len() < old(self).out.back_log_cap,
            match res {
                Ok(()) => {
                    &&& final(self).out.back_log@.len() == old(self).out.back_log@.len() + 1
                    &&& final(self).out.back_log@.subrange(
                        0,
                        old(self).out.back_log@.len() as int,
                    ) == old(self).out.back_log@
                    &&& final(self).out.back_log@.last() matches Message::ClientAck {
                        packet: Packet::SubAck(ack),
                    }
                    &&& ack.packet_id == sub.packet_id
                    &&& ack.properties is None
                    &&& ack.return_codes@ == granted(sub@.filters)
                    &&& ack@.spec_validate() is Ok
                },
                Err(e) => e == quota_exceeded() && final(self).out.back_log@ == old(self).out.back_log@,
            },
    {
        let mut codes: Vec<u8> = Vec::new();
        let mut k: usize = 0;
        while k < sub.filters.len()
            invariant
                k <= sub.filters@.len(),
                sub@.spec_validate() is Ok,
                codes@.len() == k,
                forall|j: int| 0 <= j < k ==> #[trigger] codes@[j] == sub@.filters[j].opt.qos_bits(),
            decreases sub.filters@.len() - k,
        {
            codes.push(sub.filters[k].opt.0 % 4);
            k += 1;
        }
        assert(codes@ =~= granted(sub@.filters));
        proof {
            assert forall|j: int| 0 <= j < codes@.len() implies crate::v5::suback::suback_code_valid(
                #[trigger] codes@[j],
            ) by {
                assert(sub@.filters[j].opt.valid());
            }
        }
        let ack = SubAck { packet_id: sub.packet_id, properties: None, return_codes: codes };
        let ghost before = self.out.back_log@;
        match self.out.queue_ack(Packet::SubAck(ack)) {
            Err(e) => Err(e),
            Ok(()) => {
                assert(self.out.back_log@.subrange(0, before.len() as int) =~= before);
                Ok(())
            },
        }
    }

    /// A PUBLISH that matched a subscription of this session's client is on its
    /// way to the client: it is queued with the next sequence number, at the
    /// lower of its own quality of service and the one that the subscription
    /// was granted, as a first delivery and without a packet identifier, which
    /// it gets when it goes out. The sequence number is returned. A backlog
    /// that is full disconnects the client with "quota exceeded".
    pub fn deliver(&mut self, publish: Publish, granted: QoS) -> (res: Result<OutSeqno, Error>)
        requires
            old(self).wf(),
            old(self).out.seqno < u64::MAX,
        ensures
            final(self).wf(),
            final(self).client_id == old(self).client_id,
            final(self).shard_id == old(self).shard_id,
            final(self).state == old(self).state,
            final(self).inp == old(self).inp,
            final(self).out.inflight == old(self).out.inflight,
            final(self).out.receive_maximum == old(self).out.receive_maximum,
            final(self).out.next_packet_id == old(self).out.next_packet_id,
            final(self).out.back_log_cap == old(self).out.back_log_cap,
            res is Ok <==> old(self).out.back_log@.len() < old(self).out.back_log_cap,
            match res {
                Ok(n) => {
                    &&& n == old(self).out.seqno
                    &&& final(self).out.seqno == old(self).out.seqno + 1
                    &&& final(self).out.back_log@ == old(self).out.back_log@.push(
                        Message::Packet {
                            out_seqno: n,
                            publish: Publish {
                                qos: min_qos(publish.qos, granted),
                                duplicate: false,
                                packet_id: None,
                                ..publish
                            },
                        },
                    )
                },
                Err(e) => e == quota_exceeded() && final(self).out.seqno == old(self).out.seqno
                    && final(self).out.back_log@ == old(self).out.back_log@,
            },
    {
        let mut publish = publish;
        if granted.to_u8() < publish.qos.to_u8() {
            publish.qos = granted;
        }
        publish.duplicate = false;
        publish.packet_id = None;
        self.out.queue_publish(publish)
    }
}

/// The shards to which the PUBLISH packets of a run are routed, each with the
/// sequence number of its packet, in the order in which the messages are
/// made: the packets get the sequence numbers from `start` on, and the k-th
/// matched the subscriptions `matched[k]`.
pub open spec fn stamps(start: int, matched: Seq<Seq<Subscription>>) -> Seq<(u32, int)>
    decreases matched.len(),
{
    if matched.len() == 0 {
        Seq::empty()
    } else {
        let groups = group_all(matched.last());
        stamps(start, matched.drop_last()) + Seq::new(
            groups.len(),
            |k: int| (groups[k].shard_id, start + matched.len() - 1),
        )
    }
}

/// Every message of a run carries the sequence number of one of its packets.
pub proof fn lemma_stamps_range(start: int, matched: Seq<Seq<Subscription>>, i: int)
    requires
        0 <= i < stamps(start, matched).len(),
    ensures
        start <= stamps(start, matched)[i].1 < start + matched.len(),
    decreases matched.len(),
{
    if matched.len() > 0 {
        let before = stamps(start, matched.drop_last());
        if i < before.len() {
            lemma_stamps_range(start, matched.drop_last(), i);
        }
    }
}

/// Inbound sequencing: the sequence numbers of the messages that one peer
/// shard receives from a run of PUBLISH packets rise strictly. Of two
/// messages of the run that go to the same shard, the later one carries the
/// higher sequence number.
pub proof fn law_routed_seqno_rises(start: int, matched: Seq<Seq<Subscription>>, i: int, j: int)
    requires
        0 <= i < j < stamps(start, matched).len(),
        stamps(start, matched)[i].0 == stamps(start, matched)[j].0,
    ensures
        stamps(start, matched)[i].1 < stamps(start, matched)[j].1,
    decreases matched.len(),
{
    let before = stamps(start, matched.drop_last());
    let groups = group_all(matched.last());
    if j < before.len() {
        law_routed_seqno_rises(start, matched.drop_last(), i, j);
    } else if i < before.len() {
        lemma_stamps_range(start, matched.drop_last(), i);
    } else {
        law_groups(matched.last());
        assert(groups[i - before.len()].shard_id != groups[j - before.len()].shard_id);
    }
}

} // verus!
