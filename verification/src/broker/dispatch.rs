//! What a session makes of each packet that its client sends and of the
//! acknowledgements of peer shards, and which session a new connection
//! gets.
//!
//! Every operation either fails and leaves the session as it was, or does all
//! of its work: what can fail is checked before anything changes.

use vstd::prelude::*;
use crate::broker::message::{reversed, Message, Subscription};
use crate::broker::session::{
    ack_of, acked_by, acks_of, granted, id_waits, min_acked, packet_id_in_use, quota_exceeded,
    settled, took_in, Inflight, InpEntry, Phase, Routed, Routing, Session, SessionState,
};
use crate::broker::InpSeqno;
use crate::error::{Error, ErrorKind, ReasonCode, protocol_error};
use crate::v5::connect::Connect;
use crate::v5::packet::Packet;
use crate::v5::pubaclc::{PubARLC, ReasCode};
use crate::v5::publish::{copy_string, Publish};
use crate::v5::sub::Subscribe;
use crate::v5::unsuback::UnsubAck;
use crate::v5::unsubscribe::UnSubscribe;
use crate::v5::{ClientID, PacketID, PacketType, QoS};

verus! {

/// The error that ends a connection whose client has taken its leave with a
/// DISCONNECT.
pub open spec fn client_left() -> Error {
    Error { kind: ErrorKind::Disconnected, code: ReasonCode::Success }
}

/// Whether the backlog of the session takes one more message.
pub open spec fn has_room(s: Session) -> bool {
    s.out.back_log@.len() < s.out.back_log_cap
}

/// A delivery with the packet identifier `id` is in flight and in the phase
/// `phase`.
pub open spec fn in_phase(entries: Seq<Inflight>, id: PacketID, phase: Phase) -> bool {
    exists|k: int|
        0 <= k < entries.len() && (#[trigger] entries[k]).packet_id == id && entries[k].phase
            == phase
}

/// Nothing but the outbound side differs between the two sessions.
pub open spec fn same_but_out(before: Session, after: Session) -> bool {
    &&& after.client_id == before.client_id
    &&& after.shard_id == before.shard_id
    &&& after.state == before.state
    &&& after.inp == before.inp
}

/// The outbound side `after` has the counters and limits of `before`.
pub open spec fn same_counters(before: Session, after: Session) -> bool {
    &&& after.out.seqno == before.out.seqno
    &&& after.out.next_packet_id == before.out.next_packet_id
    &&& after.out.receive_maximum == before.out.receive_maximum
    &&& after.out.back_log_cap == before.out.back_log_cap
}

/// The session `after` is the session `before` with one more message at the
/// end of its backlog.
pub open spec fn queued_one(before: Session, after: Session) -> bool {
    &&& same_but_out(before, after)
    &&& same_counters(before, after)
    &&& after.out.inflight == before.out.inflight
    &&& after.out.back_log@.len() == before.out.back_log@.len() + 1
    &&& after.out.back_log@.drop_last() == before.out.back_log@
}

/// The session `after` is the session `before` with `packet` queued toward the
/// client.
pub open spec fn answered(before: Session, after: Session, packet: Packet) -> bool {
    queued_one(before, after) && after.out.back_log@.last() == (Message::ClientAck { packet })
}

/// The outcome of answering with `packet`: the packet is queued, or the
/// backlog is full and the client is disconnected with "quota exceeded".
pub open spec fn answer_outcome(
    before: Session,
    after: Session,
    packet: Packet,
    res: Result<Vec<Routed>, Error>,
) -> bool {
    if has_room(before) {
        res matches Ok(r) && r@.len() == 0 && answered(before, after, packet)
    } else {
        res == Err::<Vec<Routed>, Error>(quota_exceeded()) && after == before
    }
}

/// The PUBCOMP that answers a PUBREL with the packet identifier `id`.
pub open spec fn pubcomp_for(id: PacketID) -> Packet {
    Packet::PubComp(
        PubARLC {
            packet_type: PacketType::PubComp,
            packet_id: id,
            code: ReasCode::Success,
            properties: None,
        },
    )
}

/// The PUBREL that answers a PUBREC with the packet identifier `id`: it says
/// "success" where the delivery waited for its PUBREC, else "packet identifier
/// not found".
pub open spec fn pubrel_for(id: PacketID, waited: bool) -> Packet {
    Packet::PubRel(
        PubARLC {
            packet_type: PacketType::PubRel,
            packet_id: id,
            code: if waited {
                ReasCode::Success
            } else {
                ReasCode::PacketIdNotFound
            },
            properties: None,
        },
    )
}

/// The outcome of a PUBACK or a PUBCOMP for the delivery `id`: the delivery
/// that waited in the phase `phase` is no longer in flight; if none waited,
/// nothing changes.
pub open spec fn settle_outcome(
    before: Session,
    after: Session,
    id: PacketID,
    phase: Phase,
    res: Result<Vec<Routed>, Error>,
) -> bool {
    &&& res matches Ok(r)
    &&& r@.len() == 0
    &&& same_but_out(before, after)
    &&& same_counters(before, after)
    &&& after.out.back_log == before.out.back_log
    &&& if in_phase(before.out.inflight@, id, phase) {
        exists|k: int|
            0 <= k < before.out.inflight@.len() && (#[trigger] before.out.inflight@[k]).packet_id
                == id && after.out.inflight@ == before.out.inflight@.remove(k)
    } else {
        after.out.inflight@ == before.out.inflight@
    }
}

/// The outcome of a PUBREC for the delivery `id`: the PUBREL that answers it
/// is queued, and the delivery, if it waited for its PUBREC, now waits for its
/// PUBCOMP.
pub open spec fn pubrec_outcome(
    before: Session,
    after: Session,
    id: PacketID,
    res: Result<Vec<Routed>, Error>,
) -> bool {
    let waited = in_phase(before.out.inflight@, id, Phase::AwaitPubRec);
    if !has_room(before) {
        res == Err::<Vec<Routed>, Error>(quota_exceeded()) && after == before
    } else {
        &&& res matches Ok(r)
        &&& r@.len() == 0
        &&& same_but_out(before, after)
        &&& same_counters(before, after)
        &&& after.out.back_log@ == before.out.back_log@.push(
            Message::ClientAck { packet: pubrel_for(id, waited) },
        )
        &&& if waited {
            exists|k: int|
                0 <= k < before.out.inflight@.len() && (#[trigger] before.out.inflight@[k]).packet_id
                    == id && after.out.inflight@ == before.out.inflight@.update(
                    k,
                    Inflight { phase: Phase::AwaitPubComp, ..before.out.inflight@[k] },
                )
        } else {
            after.out.inflight@ == before.out.inflight@
        }
    }
}

/// The outcome of a SUBSCRIBE: a packet that breaks the rules is refused with
/// its error; else the SUBACK is queued, which has the packet identifier of
/// the SUBSCRIBE and grants each filter the quality of service that it asks
/// for.
pub open spec fn subscribe_outcome(
    before: Session,
    after: Session,
    sub: Subscribe,
    res: Result<Vec<Routed>, Error>,
) -> bool {
    match sub@.spec_validate() {
        Err(e) => res == Err::<Vec<Routed>, Error>(e) && after == before,
        Ok(()) => if !has_room(before) {
            res == Err::<Vec<Routed>, Error>(quota_exceeded()) && after == before
        } else {
            &&& res matches Ok(r)
            &&& r@.len() == 0
            &&& queued_one(before, after)
            &&& after.out.back_log@.last() matches Message::ClientAck { packet: Packet::SubAck(ack) }
            &&& ack.packet_id == sub.packet_id
            &&& ack.properties is None
            &&& ack.return_codes@ == granted(sub@.filters)
        },
    }
}

/// The outcome of an UNSUBSCRIBE: a packet without filters is a protocol
/// error; else the UNSUBACK is queued, which has the packet identifier of the
/// UNSUBSCRIBE and says "success" for each filter.
pub open spec fn unsubscribe_outcome(
    before: Session,
    after: Session,
    unsub: UnSubscribe,
    res: Result<Vec<Routed>, Error>,
) -> bool {
    if unsub.filters@.len() == 0 {
        res == Err::<Vec<Routed>, Error>(protocol_error()) && after == before
    } else if !has_room(before) {
        res == Err::<Vec<Routed>, Error>(quota_exceeded()) && after == before
    } else {
        &&& res matches Ok(r)
        &&& r@.len() == 0
        &&& queued_one(before, after)
        &&& after.out.back_log@.last() matches Message::ClientAck { packet: Packet::UnsubAck(ack) }
        &&& ack.packet_id == unsub.packet_id
        &&& ack.properties is None
        &&& ack.return_codes@ == Seq::new(unsub.filters@.len(), |k: int| 0u8)
    }
}

/// Nobody subscribes to the PUBLISH and its publisher waits for an answer.
pub open spec fn unanswered(p: Publish, matched: Seq<Subscription>) -> bool {
    matched.len() == 0 && p.qos != QoS::AtMostOnce
}

/// The outcome of a PUBLISH that matched the subscriptions `matched`.
///
/// A packet that breaks the rules is refused with its error. Where the
/// publisher is owed an answer at once and the backlog is full, the client is
/// disconnected with "quota exceeded". A packet identifier that still waits
/// for its acknowledgement is refused with "packet identifier in use". Else
/// the PUBLISH is taken in: the messages for the peer shards are returned, and
/// the answer, where one is owed at once, is queued.
pub open spec fn publish_outcome(
    before: Session,
    after: Session,
    p: Publish,
    matched: Seq<Subscription>,
    now: u64,
    res: Result<Vec<Routed>, Error>,
) -> bool {
    match p@.spec_validate() {
        Err(e) => res == Err::<Vec<Routed>, Error>(e) && after == before,
        Ok(()) => if unanswered(p, matched) && !has_room(before) {
            res == Err::<Vec<Routed>, Error>(quota_exceeded()) && after == before
        } else if p.qos != QoS::AtMostOnce && id_waits(before.inp.index@, p.packet_id->Some_0) {
            res == Err::<Vec<Routed>, Error>(packet_id_in_use()) && after == before
        } else {
            let reply = if unanswered(p, matched) {
                Some(
                    ack_of(
                        InpEntry {
                            packet_id: p.packet_id->Some_0,
                            inp_seqno: before.inp.seqno,
                            qos: p.qos,
                        },
                        ReasCode::NoMatchingSubscribers,
                    ),
                )
            } else {
                None
            };
            &&& res matches Ok(routed)
            &&& took_in(
                before.inp,
                after.inp,
                before,
                p,
                matched,
                now,
                Routing { inp_seqno: before.inp.seqno, routed, reply },
            )
            &&& after.client_id == before.client_id
            &&& after.shard_id == before.shard_id
            &&& after.state == before.state
            &&& same_counters(before, after)
            &&& after.out.inflight == before.out.inflight
            &&& after.out.back_log@ == match reply {
                Some(packet) => before.out.back_log@.push(Message::ClientAck { packet }),
                None => before.out.back_log@,
            }
        },
    }
}

/// What the session `before` makes of the packet `pkt` of its client: the
/// session afterwards, and the messages for peer shards or the error that
/// ends the connection.
///
/// A DISCONNECT ends the session and the connection. A packet that only a
/// broker sends, a second CONNECT and an AUTH are protocol errors.
pub open spec fn reacts(
    before: Session,
    after: Session,
    pkt: Packet,
    matched: Seq<Subscription>,
    now: u64,
    res: Result<Vec<Routed>, Error>,
) -> bool {
    match pkt {
        Packet::Publish(p) => publish_outcome(before, after, p, matched, now, res),
        Packet::PubAck(a) => settle_outcome(before, after, a.packet_id, Phase::AwaitPubAck, res),
        Packet::PubRec(a) => pubrec_outcome(before, after, a.packet_id, res),
        Packet::PubRel(a) => answer_outcome(before, after, pubcomp_for(a.packet_id), res),
        Packet::PubComp(a) => settle_outcome(before, after, a.packet_id, Phase::AwaitPubComp, res),
        Packet::Subscribe(s) => subscribe_outcome(before, after, s, res),
        Packet::UnSubscribe(u) => unsubscribe_outcome(before, after, u, res),
        Packet::PingReq => answer_outcome(before, after, Packet::PingResp, res),
        Packet::Disconnect(_) => res == Err::<Vec<Routed>, Error>(client_left()) && after == (
        Session { state: SessionState::Closed, ..before }),
        _ => res == Err::<Vec<Routed>, Error>(protocol_error()) && after == before,
    }
}

/// The stage of a session whose connection is lost: the client may come back
/// to it, unless the session is closed.
pub open spec fn after_loss(state: SessionState) -> SessionState {
    if state == SessionState::Closed {
        SessionState::Closed
    } else {
        SessionState::Reconnecting
    }
}

impl Session {
    /// Whether the session has ended.
    pub fn is_closed(&self) -> (b: bool)
        ensures
            b == (self.state == SessionState::Closed),
    {
        match self.state {
            SessionState::Closed => true,
            _ => false,
        }
    }

    /// The connection of the session is lost: the session waits for its
    /// client to come back, with everything that is queued and in flight,
    /// unless the client has ended it.
    pub fn on_connection_lost(&mut self)
        ensures
            *final(self) == (Session { state: after_loss(old(self).state), ..*old(self) }),
    {
        if !self.is_closed() {
            self.state = SessionState::Reconnecting;
        }
    }

    /// Whether the backlog takes one more message.
    pub fn has_room(&self) -> (b: bool)
        ensures
            b == has_room(*self),
    {
        self.out.back_log.len() < self.out.back_log_cap
    }

    /// Queues `packet` toward the client, if the backlog takes it.
    fn answer(&mut self, packet: Packet) -> (res: Result<Vec<Routed>, Error>)
        requires
            old(self).wf(),
        ensures
            final(self).wf(),
            answer_outcome(*old(self), *final(self), packet, res),
    {
        if !self.has_room() {
            return Err(Error::new(ErrorKind::ProtocolError, ReasonCode::QuotaExceeded));
        }
        match self.out.queue_ack(packet) {
            Ok(()) => {
                assert(self.out.back_log@.drop_last() =~= old(self).out.back_log@);
                Ok(Vec::new())
            },
            Err(_) => unreached(),
        }
    }

    /// Takes in a PUBLISH of the client.
    fn on_publish(&mut self, p: Publish, matched: Vec<Subscription>, now: u64) -> (res: Result<
        Vec<Routed>,
        Error,
    >)
        requires
            old(self).wf(),
            old(self).inp.seqno < u64::MAX,
        ensures
            final(self).wf(),
            publish_outcome(*old(self), *final(self), p, matched@, now, res),
    {
        match p.validate() {
            Err(e) => {
                return Err(e);
            },
            Ok(()) => {},
        }
        let qos0 = match p.qos {
            QoS::AtMostOnce => true,
            _ => false,
        };
        if matched.len() == 0 && !qos0 && !self.has_room() {
            return Err(Error::new(ErrorKind::ProtocolError, ReasonCode::QuotaExceeded));
        }
        if !qos0 {
            let id = match p.packet_id {
                Some(id) => id,
                None => unreached(),
            };
            if self.inp.waits(id) {
                return Err(Error::new(ErrorKind::ProtocolError, ReasonCode::PacketIdentifierInUse));
            }
        }
        match self.publish_in(p, matched, now) {
            Err(_) => unreached(),
            Ok(routing) => {
                let Routing { routed, reply, .. } = routing;
                match reply {
                    None => {},
                    Some(packet) => match self.out.queue_ack(packet) {
                        Ok(()) => {},
                        Err(_) => unreached(),
                    },
                }
                Ok(routed)
            },
        }
    }

    /// Answers a PUBREC of the client.
    fn on_pubrec(&mut self, id: PacketID) -> (res: Result<Vec<Routed>, Error>)
        requires
            old(self).wf(),
        ensures
            final(self).wf(),
            pubrec_outcome(*old(self), *final(self), id, res),
    {
        if !self.has_room() {
            return Err(Error::new(ErrorKind::ProtocolError, ReasonCode::QuotaExceeded));
        }
        let rel = self.out.on_pubrec(id);
        match self.out.queue_ack(Packet::PubRel(rel)) {
            Ok(()) => Ok(Vec::new()),
            Err(_) => unreached(),
        }
    }

    /// Answers a SUBSCRIBE of the client.
    fn on_subscribe_packet(&mut self, sub: Subscribe) -> (res: Result<Vec<Routed>, Error>)
        requires
            old(self).wf(),
        ensures
            final(self).wf(),
            subscribe_outcome(*old(self), *final(self), sub, res),
    {
        match sub.validate() {
            Err(e) => {
                return Err(e);
            },
            Ok(()) => {},
        }
        if !self.has_room() {
            return Err(Error::new(ErrorKind::ProtocolError, ReasonCode::QuotaExceeded));
        }
        match self.on_subscribe(&sub) {
            Ok(()) => {
                assert(self.out.back_log@.drop_last() =~= old(self).out.back_log@);
                Ok(Vec::new())
            },
            Err(_) => unreached(),
        }
    }

    /// Answers an UNSUBSCRIBE of the client.
    fn on_unsubscribe(&mut self, unsub: UnSubscribe) -> (res: Result<Vec<Routed>, Error>)
        requires
            old(self).wf(),
        ensures
            final(self).wf(),
            unsubscribe_outcome(*old(self), *final(self), unsub, res),
    {
        if unsub.filters.len() == 0 {
            return Err(Error::protocol_error());
        }
        if !self.has_room() {
            return Err(Error::new(ErrorKind::ProtocolError, ReasonCode::QuotaExceeded));
        }
        let mut codes: Vec<u8> = Vec::new();
        let mut k: usize = 0;
        while k < unsub.filters.len()
            invariant
                k <= unsub.filters@.len(),
                codes@ == Seq::new(k as nat, |j: int| 0u8),
            decreases unsub.filters@.len() - k,
        {
            codes.push(0);
            k += 1;
            assert(codes@ =~= Seq::new(k as nat, |j: int| 0u8));
        }
        let ack = UnsubAck { packet_id: unsub.packet_id, properties: None, return_codes: codes };
        match self.out.queue_ack(Packet::UnsubAck(ack)) {
            Ok(()) => {
                assert(self.out.back_log@.drop_last() =~= old(self).out.back_log@);
                Ok(Vec::new())
            },
            Err(_) => unreached(),
        }
    }

    /// Takes a packet that the client sent; `matched` are the subscriptions
    /// that the topic of a PUBLISH matched. Returns the messages that go to
    /// peer shards, or the error that ends the connection, in which case the
    /// session is as it was, but for a DISCONNECT, which closes it.
    pub fn on_packet(&mut self, pkt: Packet, matched: Vec<Subscription>, now: u64) -> (res: Result<
        Vec<Routed>,
        Error,
    >)
        requires
            old(self).wf(),
            old(self).inp.seqno < u64::MAX,
        ensures
            final(self).wf(),
            reacts(*old(self), *final(self), pkt, matched@, now, res),
    {
        match pkt {
            Packet::Publish(p) => self.on_publish(p, matched, now),
            Packet::PubAck(a) => {
                let _ = self.out.on_puback(a.packet_id);
                Ok(Vec::new())
            },
            Packet::PubRec(a) => self.on_pubrec(a.packet_id),
            Packet::PubRel(a) => {
                let comp = PubARLC {
                    packet_type: PacketType::PubComp,
                    packet_id: a.packet_id,
                    code: ReasCode::Success,
                    properties: None,
                };
                self.answer(Packet::PubComp(comp))
            },
            Packet::PubComp(a) => {
                let _ = self.out.on_pubcomp(a.packet_id);
                Ok(Vec::new())
            },
            Packet::Subscribe(s) => self.on_subscribe_packet(s),
            Packet::UnSubscribe(u) => self.on_unsubscribe(u),
            Packet::PingReq => self.answer(Packet::PingResp),
            Packet::Disconnect(_) => {
                self.state = SessionState::Closed;
                Err(Error::new(ErrorKind::Disconnected, ReasonCode::Success))
            },
            _ => Err(Error::protocol_error()),
        }
    }
}

/// The messages that carry the packets `acks` toward the client, in order.
pub open spec fn as_answers(acks: Seq<Packet>) -> Seq<Message> {
    Seq::new(acks.len(), |k: int| Message::ClientAck { packet: acks[k] })
}

impl Session {
    /// A peer shard has acknowledged everything up to `last_acked`. The
    /// acknowledgement is booked, and every PUBLISH that all peers have now
    /// acknowledged is acknowledged to the client, oldest first. Returns how
    /// many acknowledgements were queued. Where the backlog does not take all
    /// of them, none is queued and the client is disconnected with "quota
    /// exceeded".
    pub fn on_peer_ack(&mut self, shard_id: u32, last_acked: InpSeqno, now: u64) -> (res: Result<
        usize,
        Error,
    >)
        requires
            old(self).wf(),
        ensures
            final(self).wf(),
            final(self).client_id == old(self).client_id,
            final(self).shard_id == old(self).shard_id,
            final(self).state == old(self).state,
            final(self).inp.seqno == old(self).inp.seqno,
            final(self).inp.peer_acks@ == acked_by(old(self).inp.peer_acks@, shard_id, last_acked, now),
            same_counters(*old(self), *final(self)),
            final(self).out.inflight == old(self).out.inflight,
            ({
                let min = min_acked(final(self).inp.peer_acks@);
                let k = settled(old(self).inp.index@, min);
                let acks = acks_of(old(self).inp.index@.subrange(0, k));
                &&& 0 <= k <= old(self).inp.index@.len()
                &&& final(self).inp.index@ == old(self).inp.index@.subrange(
                    k,
                    old(self).inp.index@.len() as int,
                )
                &&& if old(self).out.back_log@.len() + acks.len() <= old(self).out.back_log_cap {
                    res == Ok::<usize, Error>(acks.len() as usize) && final(self).out.back_log@
                        == old(self).out.back_log@ + as_answers(acks)
                } else {
                    res == Err::<usize, Error>(quota_exceeded()) && final(self).out.back_log@
                        == old(self).out.back_log@
                }
            }),
    {
        let acks = self.inp.on_local_ack(shard_id, last_acked, now);
        let ghost want = acks@;
        let n: usize = acks.len();
        if n > self.out.back_log_cap || self.out.back_log.len() > self.out.back_log_cap - n {
            return Err(Error::new(ErrorKind::ProtocolError, ReasonCode::QuotaExceeded));
        }
        let mut rest = reversed(acks);
        let mut done: usize = 0;
        assert(self.out.back_log@ =~= old(self).out.back_log@ + as_answers(want.take(0)));
        while done < n
            invariant
                self.wf(),
                done <= n,
                n == want.len(),
                rest@.len() == n - done,
                rest@ == want.subrange(done as int, n as int).reverse(),
                self.client_id == old(self).client_id,
                self.shard_id == old(self).shard_id,
                self.state == old(self).state,
                self.inp.seqno == old(self).inp.seqno,
                self.inp.peer_acks@ == acked_by(old(self).inp.peer_acks@, shard_id, last_acked, now),
                self.inp.index@ == old(self).inp.index@.subrange(
                    settled(old(self).inp.index@, min_acked(self.inp.peer_acks@)),
                    old(self).inp.index@.len() as int,
                ),
                same_counters(*old(self), *self),
                self.out.inflight == old(self).out.inflight,
                old(self).out.back_log@.len() + n <= self.out.back_log_cap,
                self.out.back_log@ == old(self).out.back_log@ + as_answers(want.take(done as int)),
            decreases n - done,
        {
            let ghost before = self.out.back_log@;
            match rest.pop() {
                None => unreached(),
                Some(packet) => {
                    assert(packet == want[done as int]);
                    match self.out.queue_ack(packet) {
                        Ok(()) => {},
                        Err(_) => unreached(),
                    }
                    proof {
                        assert(rest@ =~= want.subrange(done + 1, n as int).reverse());
                        assert(self.out.back_log@ =~= old(self).out.back_log@ + as_answers(
                            want.take(done + 1),
                        ));
                    }
                    done += 1;
                },
            }
        }
        assert(want.take(n as int) =~= want);
        Ok(n)
    }

    /// The session of a new connection whose CONNECT is `connect`, on the shard `shard_id`,
    /// where `existing` is the session that the shard holds for the client, if
    /// it holds one. The connection adopts that session, unless the session
    /// is closed or the CONNECT asks for a clean start; else it gets a fresh
    /// session, which allows as many deliveries in flight as the client says.
    /// Returns the session and whether it was there before.
    pub fn adopt_or_new(
        existing: Option<Session>,
        connect: &Connect,
        shard_id: u32,
        back_log_cap: usize,
    ) -> (res: (Session, bool))
        requires
            connect@.spec_validate() is Ok,
            existing matches Some(s) ==> s.wf(),
        ensures
            res.0.wf(),
            res.1 == (existing matches Some(s) && s.state != SessionState::Closed
                && !connect.flags.spec_is_clean_start()),
            res.1 ==> res.0 == existing->Some_0,
            !res.1 ==> {
                &&& res.0.client_id@ == connect.payload.client_id@
                &&& res.0.shard_id == shard_id
                &&& res.0.state == SessionState::Accepting
                &&& res.0.inp.seqno == 1
                &&& res.0.inp.index@.len() == 0
                &&& res.0.out.seqno == 1
                &&& res.0.out.inflight@.len() == 0
                &&& res.0.out.back_log@.len() == 0
                &&& res.0.out.receive_maximum == connect.spec_receive_maximum()
                &&& res.0.out.back_log_cap == back_log_cap
            },
    {
        let clean_start = (connect.flags.0 & 0x02) > 0;
        let adopted = match &existing {
            Some(s) => !clean_start && !s.is_closed(),
            None => false,
        };
        match existing {
            Some(s) if adopted => (s, true),
            _ => {
                let client_id = ClientID(copy_string(&connect.payload.client_id.0));
                (Session::new(client_id, shard_id, connect.receive_maximum(), back_log_cap), false)
            },
        }
    }
}

} // verus!
