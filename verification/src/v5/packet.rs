//! A control packet of any kind.

use vstd::prelude::*;
use crate::error::{Error, ErrorKind, ReasonCode, malformed};
use crate::wire::{agrees_view, put_u8, VARU32_MAX};
use crate::v5::auth::{law_auth_decode_encode, law_auth_encode_decode, Auth, AuthView};
use crate::v5::connack::{
    law_connack_decode_encode, law_connack_encode_decode, ConnAck, ConnAckView,
};
use crate::v5::connect::{
    law_connect_decode_encode, law_connect_encode_decode, Connect, ConnectView,
};
use crate::v5::disconnect::{
    law_disconnect_decode_encode, law_disconnect_encode_decode, Disconnect, DisconnectView,
};
use crate::v5::publish::{
    law_publish_decode_encode, law_publish_encode_decode, Publish, PublishView,
};
use crate::v5::pubaclc::{law_decode_encode, law_encode_decode, PubARLC, PubARLCView};
use crate::v5::sub::{
    law_subscribe_decode_encode, law_subscribe_encode_decode, Subscribe, SubscribeView,
};
use crate::v5::suback::{law_suback_decode_encode, law_suback_encode_decode, SubAck, SubAckView};
use crate::v5::unsuback::{
    law_unsuback_decode_encode, law_unsuback_encode_decode, UnsubAck, UnsubAckView,
};
use crate::v5::unsubscribe::{
    law_unsubscribe_decode_encode, law_unsubscribe_encode_decode, UnSubscribe, UnSubscribeView,
};
use crate::v5::{first_byte, lemma_first_byte, FixedHeader, PacketType};

verus! {

/// A control packet.
#[derive(Clone, Eq, PartialEq, Debug)]
pub enum Packet {
    Connect(Connect),
    ConnAck(ConnAck),
    Publish(Publish),
    PubAck(PubARLC),
    PubRec(PubARLC),
    PubRel(PubARLC),
    PubComp(PubARLC),
    Subscribe(Subscribe),
    SubAck(SubAck),
    UnSubscribe(UnSubscribe),
    UnsubAck(UnsubAck),
    PingReq,
    PingResp,
    Disconnect(Disconnect),
    Auth(Auth),
}

/// A control packet, with text as its bytes.
pub ghost enum PacketView {
    Connect(ConnectView),
    ConnAck(ConnAckView),
    Publish(PublishView),
    PubAck(PubARLCView),
    PubRec(PubARLCView),
    PubRel(PubARLCView),
    PubComp(PubARLCView),
    Subscribe(SubscribeView),
    SubAck(SubAckView),
    UnSubscribe(UnSubscribeView),
    UnsubAck(UnsubAckView),
    PingReq,
    PingResp,
    Disconnect(DisconnectView),
    Auth(AuthView),
}

impl View for Packet {
    type V = PacketView;

    open spec fn view(&self) -> PacketView {
        match self {
            Packet::Connect(p) => PacketView::Connect(p@),
            Packet::ConnAck(p) => PacketView::ConnAck(p@),
            Packet::Publish(p) => PacketView::Publish(p@),
            Packet::PubAck(p) => PacketView::PubAck(p@),
            Packet::PubRec(p) => PacketView::PubRec(p@),
            Packet::PubRel(p) => PacketView::PubRel(p@),
            Packet::PubComp(p) => PacketView::PubComp(p@),
            Packet::Subscribe(p) => PacketView::Subscribe(p@),
            Packet::SubAck(p) => PacketView::SubAck(p@),
            Packet::UnSubscribe(p) => PacketView::UnSubscribe(p@),
            Packet::UnsubAck(p) => PacketView::UnsubAck(p@),
            Packet::PingReq => PacketView::PingReq,
            Packet::PingResp => PacketView::PingResp,
            Packet::Disconnect(p) => PacketView::Disconnect(p@),
            Packet::Auth(p) => PacketView::Auth(p@),
        }
    }
}

/// The error for an acknowledgement that sits in the variant of another kind.
pub open spec fn mismatched_packet() -> Error {
    Error { kind: ErrorKind::InvalidInput, code: ReasonCode::UnspecifiedError }
}

/// The two bytes of a packet that is nothing but its fixed header.
pub open spec fn bare_packet(t: PacketType) -> Seq<u8> {
    seq![first_byte(t, 0), 0u8]
}

/// A packet that is nothing but its fixed header, read at position `i`: its
/// first byte is valid and its remaining length is 0.
pub open spec fn dec_bare(s: Seq<u8>, i: int) -> Result<int, Error> {
    match FixedHeader::dec(s, i) {
        Err(e) => Err(e),
        Ok((fh, n)) => match fh.spec_validate() {
            Err(e) => Err(e),
            Ok(()) => if fh.remaining_len.0 != 0 {
                Err(malformed())
            } else {
                Ok(n)
            },
        },
    }
}

impl PacketView {
    /// The kind of the packet.
    pub open spec fn packet_type(self) -> PacketType {
        match self {
            PacketView::Connect(_) => PacketType::Connect,
            PacketView::ConnAck(_) => PacketType::ConnAck,
            PacketView::Publish(_) => PacketType::Publish,
            PacketView::PubAck(_) => PacketType::PubAck,
            PacketView::PubRec(_) => PacketType::PubRec,
            PacketView::PubRel(_) => PacketType::PubRel,
            PacketView::PubComp(_) => PacketType::PubComp,
            PacketView::Subscribe(_) => PacketType::Subscribe,
            PacketView::SubAck(_) => PacketType::SubAck,
            PacketView::UnSubscribe(_) => PacketType::UnSubscribe,
            PacketView::UnsubAck(_) => PacketType::UnsubAck,
            PacketView::PingReq => PacketType::PingReq,
            PacketView::PingResp => PacketType::PingResp,
            PacketView::Disconnect(_) => PacketType::Disconnect,
            PacketView::Auth(_) => PacketType::Auth,
        }
    }

    /// The bytes of the packet, or why it cannot be written. An
    /// acknowledgement of a PUBLISH must sit in the variant of its own kind.
    pub open spec fn spec_encode(self) -> Result<Seq<u8>, Error> {
        match self {
            PacketView::Connect(p) => p.spec_encode(),
            PacketView::ConnAck(p) => p.spec_encode(),
            PacketView::Publish(p) => p.spec_encode(),
            PacketView::PubAck(p) => Self::ack_encode(p, PacketType::PubAck),
            PacketView::PubRec(p) => Self::ack_encode(p, PacketType::PubRec),
            PacketView::PubRel(p) => Self::ack_encode(p, PacketType::PubRel),
            PacketView::PubComp(p) => Self::ack_encode(p, PacketType::PubComp),
            PacketView::Subscribe(p) => p.spec_encode(),
            PacketView::SubAck(p) => p.spec_encode(),
            PacketView::UnSubscribe(p) => p.spec_encode(),
            PacketView::UnsubAck(p) => p.spec_encode(),
            PacketView::PingReq => Ok(bare_packet(PacketType::PingReq)),
            PacketView::PingResp => Ok(bare_packet(PacketType::PingResp)),
            PacketView::Disconnect(p) => p.spec_encode(),
            PacketView::Auth(p) => p.spec_encode(),
        }
    }

    pub open spec fn ack_encode(p: PubARLCView, t: PacketType) -> Result<Seq<u8>, Error> {
        if p.packet_type != t {
            Err(mismatched_packet())
        } else {
            p.spec_encode()
        }
    }

    /// The acknowledgement `p` in the variant of its kind.
    pub open spec fn of_ack(p: PubARLCView) -> PacketView {
        match p.packet_type {
            PacketType::PubAck => PacketView::PubAck(p),
            PacketType::PubRec => PacketView::PubRec(p),
            PacketType::PubRel => PacketView::PubRel(p),
            _ => PacketView::PubComp(p),
        }
    }

    /// The packet reads back as itself.
    pub open spec fn canonical(self) -> bool {
        match self {
            PacketView::Connect(p) => p.canonical(),
            PacketView::ConnAck(p) => p.canonical(),
            PacketView::Publish(p) => p.canonical(),
            PacketView::PubAck(p) => p.canonical(),
            PacketView::PubRec(p) => p.canonical(),
            PacketView::PubRel(p) => p.canonical(),
            PacketView::PubComp(p) => p.canonical(),
            PacketView::Subscribe(p) => p.canonical(),
            PacketView::SubAck(p) => p.canonical(),
            PacketView::UnSubscribe(p) => p.canonical(),
            PacketView::UnsubAck(p) => p.canonical(),
            PacketView::PingReq => true,
            PacketView::PingResp => true,
            PacketView::Disconnect(p) => p.canonical(),
            PacketView::Auth(p) => p.canonical(),
        }
    }

    /// The packet that stands at the start of `s`, of the kind that its first
    /// byte announces, and the position behind what was read of it. A first
    /// byte that announces no kind is malformed.
    pub open spec fn dec(s: Seq<u8>) -> Result<(PacketView, int), Error> {
        if s.len() == 0 {
            Err(malformed())
        } else {
            match PacketType::spec_from_u8(s[0] / 16) {
                Err(e) => Err(e),
                Ok(t) => Self::dec_kind(t, s),
            }
        }
    }

    /// The packet of kind `t` that stands at the start of `s`.
    #[verifier::opaque]
    pub open spec fn dec_kind(t: PacketType, s: Seq<u8>) -> Result<(PacketView, int), Error> {
        match t {
            PacketType::Connect => match ConnectView::dec(s, 0) {
                Err(e) => Err(e),
                Ok((p, n)) => Ok((PacketView::Connect(p), n)),
            },
            PacketType::ConnAck => match ConnAckView::dec(s, 0) {
                Err(e) => Err(e),
                Ok((p, n)) => Ok((PacketView::ConnAck(p), n)),
            },
            PacketType::Publish => match PublishView::dec(s, 0) {
                Err(e) => Err(e),
                Ok((p, n)) => Ok((PacketView::Publish(p), n)),
            },
            PacketType::PubAck | PacketType::PubRec | PacketType::PubRel | PacketType::PubComp => match PubARLCView::dec(
                s,
                0,
            ) {
                Err(e) => Err(e),
                Ok((p, n)) => Ok((PacketView::of_ack(p), n)),
            },
            PacketType::Subscribe => match SubscribeView::dec(s, 0) {
                Err(e) => Err(e),
                Ok((p, n)) => Ok((PacketView::Subscribe(p), n)),
            },
            PacketType::SubAck => match SubAckView::dec(s, 0) {
                Err(e) => Err(e),
                Ok((p, n)) => Ok((PacketView::SubAck(p), n)),
            },
            PacketType::UnSubscribe => match UnSubscribeView::dec(s, 0) {
                Err(e) => Err(e),
                Ok((p, n)) => Ok((PacketView::UnSubscribe(p), n)),
            },
            PacketType::UnsubAck => match UnsubAckView::dec(s, 0) {
                Err(e) => Err(e),
                Ok((p, n)) => Ok((PacketView::UnsubAck(p), n)),
            },
            PacketType::PingReq => match dec_bare(s, 0) {
                Err(e) => Err(e),
                Ok(n) => Ok((PacketView::PingReq, n)),
            },
            PacketType::PingResp => match dec_bare(s, 0) {
                Err(e) => Err(e),
                Ok(n) => Ok((PacketView::PingResp, n)),
            },
            PacketType::Disconnect => match DisconnectView::dec(s, 0) {
                Err(e) => Err(e),
                Ok((p, n)) => Ok((PacketView::Disconnect(p), n)),
            },
            PacketType::Auth => match AuthView::dec(s, 0) {
                Err(e) => Err(e),
                Ok((p, n)) => Ok((PacketView::Auth(p), n)),
            },
        }
    }
}

/// Reads a packet that is nothing but its fixed header.
fn decode_bare(stream: &[u8]) -> (res: Result<usize, Error>)
    ensures
        match res {
            Ok(n) => dec_bare(stream@, 0) == Ok::<int, Error>(n as int),
            Err(e) => dec_bare(stream@, 0) == Err::<int, Error>(e),
        },
{
    match FixedHeader::decode(stream, 0) {
        Err(e) => Err(e),
        Ok((fh, n)) => match fh.validate() {
            Err(e) => Err(e),
            Ok(()) => if fh.remaining_len.0 != 0 {
                Err(Error::malformed())
            } else {
                Ok(n)
            },
        },
    }
}

/// The bytes of a packet of kind `t` that is nothing but its fixed header.
fn encode_bare(t: PacketType) -> (v: Vec<u8>)
    requires
        t != PacketType::Publish,
        t.spec_fixed_flags() == Some(0u8),
    ensures
        v@ == bare_packet(t),
{
    let mut out: Vec<u8> = Vec::new();
    put_u8(&mut out, t.to_u8() * 16);
    put_u8(&mut out, 0);
    assert(out@ =~= bare_packet(t));
    out
}

/// Reads a CONNECT.
#[verifier::rlimit(40)]
fn decode_connect(stream: &[u8]) -> (res: Result<(Packet, usize), Error>)
    ensures
        agrees_view(res, PacketView::dec_kind(PacketType::Connect, stream@)),
{
    reveal(PacketView::dec_kind);
    match Connect::decode(stream) {
        Err(e) => Err(e),
        Ok((p, n)) => Ok((Packet::Connect(p), n)),
    }
}

/// Reads a CONNACK.
#[verifier::rlimit(40)]
fn decode_connack(stream: &[u8]) -> (res: Result<(Packet, usize), Error>)
    ensures
        agrees_view(res, PacketView::dec_kind(PacketType::ConnAck, stream@)),
{
    reveal(PacketView::dec_kind);
    match ConnAck::decode(stream) {
        Err(e) => Err(e),
        Ok((p, n)) => Ok((Packet::ConnAck(p), n)),
    }
}

/// Reads a PUBLISH.
#[verifier::rlimit(40)]
fn decode_publish(stream: &[u8]) -> (res: Result<(Packet, usize), Error>)
    ensures
        agrees_view(res, PacketView::dec_kind(PacketType::Publish, stream@)),
{
    reveal(PacketView::dec_kind);
    match Publish::decode(stream) {
        Err(e) => Err(e),
        Ok((p, n)) => Ok((Packet::Publish(p), n)),
    }
}

/// Reads a SUBSCRIBE.
#[verifier::rlimit(40)]
fn decode_subscribe(stream: &[u8]) -> (res: Result<(Packet, usize), Error>)
    ensures
        agrees_view(res, PacketView::dec_kind(PacketType::Subscribe, stream@)),
{
    reveal(PacketView::dec_kind);
    match Subscribe::decode(stream) {
        Err(e) => Err(e),
        Ok((p, n)) => Ok((Packet::Subscribe(p), n)),
    }
}

/// Reads a SUBACK.
#[verifier::rlimit(40)]
fn decode_suback(stream: &[u8]) -> (res: Result<(Packet, usize), Error>)
    ensures
        agrees_view(res, PacketView::dec_kind(PacketType::SubAck, stream@)),
{
    reveal(PacketView::dec_kind);
    match SubAck::decode(stream) {
        Err(e) => Err(e),
        Ok((p, n)) => Ok((Packet::SubAck(p), n)),
    }
}

/// Reads an UNSUBSCRIBE.
#[verifier::rlimit(40)]
fn decode_unsubscribe(stream: &[u8]) -> (res: Result<(Packet, usize), Error>)
    ensures
        agrees_view(res, PacketView::dec_kind(PacketType::UnSubscribe, stream@)),
{
    reveal(PacketView::dec_kind);
    match UnSubscribe::decode(stream) {
        Err(e) => Err(e),
        Ok((p, n)) => Ok((Packet::UnSubscribe(p), n)),
    }
}

/// Reads an UNSUBACK.
#[verifier::rlimit(40)]
fn decode_unsuback(stream: &[u8]) -> (res: Result<(Packet, usize), Error>)
    ensures
        agrees_view(res, PacketView::dec_kind(PacketType::UnsubAck, stream@)),
{
    reveal(PacketView::dec_kind);
    match UnsubAck::decode(stream) {
        Err(e) => Err(e),
        Ok((p, n)) => Ok((Packet::UnsubAck(p), n)),
    }
}

/// Reads a DISCONNECT.
#[verifier::rlimit(40)]
fn decode_disconnect(stream: &[u8]) -> (res: Result<(Packet, usize), Error>)
    ensures
        agrees_view(res, PacketView::dec_kind(PacketType::Disconnect, stream@)),
{
    reveal(PacketView::dec_kind);
    match Disconnect::decode(stream) {
        Err(e) => Err(e),
        Ok((p, n)) => Ok((Packet::Disconnect(p), n)),
    }
}

/// Reads an AUTH.
#[verifier::rlimit(40)]
fn decode_auth(stream: &[u8]) -> (res: Result<(Packet, usize), Error>)
    ensures
        agrees_view(res, PacketView::dec_kind(PacketType::Auth, stream@)),
{
    reveal(PacketView::dec_kind);
    match Auth::decode(stream) {
        Err(e) => Err(e),
        Ok((p, n)) => Ok((Packet::Auth(p), n)),
    }
}

/// Reads an acknowledgement of a PUBLISH, of the kind `t`.
#[verifier::rlimit(40)]
fn decode_ack(t: PacketType, stream: &[u8]) -> (res: Result<(Packet, usize), Error>)
    requires
        t == PacketType::PubAck || t == PacketType::PubRec || t == PacketType::PubRel || t
            == PacketType::PubComp,
    ensures
        agrees_view(res, PacketView::dec_kind(t, stream@)),
{
    reveal(PacketView::dec_kind);
    match PubARLC::decode(stream) {
        Err(e) => Err(e),
        Ok((p, n)) => Ok((Packet::of_ack(p), n)),
    }
}

/// Reads a PINGREQ or a PINGRESP.
#[verifier::rlimit(40)]
fn decode_ping(t: PacketType, stream: &[u8]) -> (res: Result<(Packet, usize), Error>)
    requires
        t == PacketType::PingReq || t == PacketType::PingResp,
    ensures
        agrees_view(res, PacketView::dec_kind(t, stream@)),
{
    reveal(PacketView::dec_kind);
    match decode_bare(stream) {
        Err(e) => Err(e),
        Ok(n) => match t {
            PacketType::PingReq => Ok((Packet::PingReq, n)),
            _ => Ok((Packet::PingResp, n)),
        },
    }
}

impl Packet {
    pub fn to_packet_type(&self) -> (t: PacketType)
        ensures
            t == self@.packet_type(),
    {
        match self {
            Packet::Connect(_) => PacketType::Connect,
            Packet::ConnAck(_) => PacketType::ConnAck,
            Packet::Publish(_) => PacketType::Publish,
            Packet::PubAck(_) => PacketType::PubAck,
            Packet::PubRec(_) => PacketType::PubRec,
            Packet::PubRel(_) => PacketType::PubRel,
            Packet::PubComp(_) => PacketType::PubComp,
            Packet::Subscribe(_) => PacketType::Subscribe,
            Packet::SubAck(_) => PacketType::SubAck,
            Packet::UnSubscribe(_) => PacketType::UnSubscribe,
            Packet::UnsubAck(_) => PacketType::UnsubAck,
            Packet::PingReq => PacketType::PingReq,
            Packet::PingResp => PacketType::PingResp,
            Packet::Disconnect(_) => PacketType::Disconnect,
            Packet::Auth(_) => PacketType::Auth,
        }
    }

    /// The acknowledgement `p` in the variant of its kind.
    pub(crate) fn of_ack(p: PubARLC) -> (res: Packet)
        ensures
            res@ == PacketView::of_ack(p@),
    {
        match p.packet_type {
            PacketType::PubAck => Packet::PubAck(p),
            PacketType::PubRec => Packet::PubRec(p),
            PacketType::PubRel => Packet::PubRel(p),
            _ => Packet::PubComp(p),
        }
    }

    /// Reads the packet at the start of `stream`, of whatever kind its first
    /// byte announces; returns it with the number of bytes read.
    pub fn decode(stream: &[u8]) -> (res: Result<(Packet, usize), Error>)
        ensures
            agrees_view(res, PacketView::dec(stream@)),
    {
        if stream.len() == 0 {
            return Err(Error::malformed());
        }
        let t = match PacketType::try_from_u8(stream[0] / 16) {
            Err(e) => {
                return Err(e);
            },
            Ok(t) => t,
        };
        match t {
            PacketType::Connect => decode_connect(stream),
            PacketType::ConnAck => decode_connack(stream),
            PacketType::Publish => decode_publish(stream),
            PacketType::PubAck | PacketType::PubRec | PacketType::PubRel | PacketType::PubComp => decode_ack(
                t,
                stream,
            ),
            PacketType::Subscribe => decode_subscribe(stream),
            PacketType::SubAck => decode_suback(stream),
            PacketType::UnSubscribe => decode_unsubscribe(stream),
            PacketType::UnsubAck => decode_unsuback(stream),
            PacketType::PingReq | PacketType::PingResp => decode_ping(t, stream),
            PacketType::Disconnect => decode_disconnect(stream),
            PacketType::Auth => decode_auth(stream),
        }
    }

    /// An acknowledgement that sits in the variant of the kind `t`.
    fn encode_ack(p: &PubARLC, t: PacketType) -> (res: Result<Vec<u8>, Error>)
        ensures
            match res {
                Ok(v) => PacketView::ack_encode(p@, t) == Ok::<Seq<u8>, Error>(v@),
                Err(e) => PacketView::ack_encode(p@, t) == Err::<Seq<u8>, Error>(e),
            },
    {
        if p.packet_type.to_u8() != t.to_u8() {
            Err(Error::new(ErrorKind::InvalidInput, ReasonCode::UnspecifiedError))
        } else {
            p.encode()
        }
    }

    /// The bytes of the packet.
    pub fn encode(&self) -> (res: Result<Vec<u8>, Error>)
        ensures
            match res {
                Ok(v) => self@.spec_encode() == Ok::<Seq<u8>, Error>(v@),
                Err(e) => self@.spec_encode() == Err::<Seq<u8>, Error>(e),
            },
    {
        match self {
            Packet::Connect(p) => p.encode(),
            Packet::ConnAck(p) => p.encode(),
            Packet::Publish(p) => p.encode(),
            Packet::PubAck(p) => Self::encode_ack(p, PacketType::PubAck),
            Packet::PubRec(p) => Self::encode_ack(p, PacketType::PubRec),
            Packet::PubRel(p) => Self::encode_ack(p, PacketType::PubRel),
            Packet::PubComp(p) => Self::encode_ack(p, PacketType::PubComp),
            Packet::Subscribe(p) => p.encode(),
            Packet::SubAck(p) => p.encode(),
            Packet::UnSubscribe(p) => p.encode(),
            Packet::UnsubAck(p) => p.encode(),
            Packet::PingReq => Ok(encode_bare(PacketType::PingReq)),
            Packet::PingResp => Ok(encode_bare(PacketType::PingResp)),
            Packet::Disconnect(p) => p.encode(),
            Packet::Auth(p) => p.encode(),
        }
    }
}

/// A packet that is nothing but its fixed header is read back from its two
/// bytes.
pub proof fn lemma_dec_enc_bare(t: PacketType)
    requires
        t == PacketType::PingReq || t == PacketType::PingResp,
    ensures
        dec_bare(bare_packet(t), 0) == Ok::<int, Error>(2),
        bare_packet(t)[0] / 16 == t.spec_to_u8(),
{
    let s = bare_packet(t);
    lemma_first_byte(t);
    assert(s[0] == first_byte(t, 0) && s[1] == 0);
}

/// The first byte of a packet is the first byte of its fixed header.
pub proof fn lemma_encoded_first_byte(fh: FixedHeader, body: Seq<u8>)
    ensures
        (fh.enc() + body).len() > 0,
        (fh.enc() + body)[0] == fh.byte1,
{
}

/// An acknowledgement of a PUBLISH that can be written sits in the variant of
/// its kind.
pub proof fn lemma_ack_variant(v: PacketView, p: PubARLCView)
    requires
        v.spec_encode() is Ok,
        v == PacketView::PubAck(p) || v == PacketView::PubRec(p) || v == PacketView::PubRel(p) || v
            == PacketView::PubComp(p),
    ensures
        v == PacketView::of_ack(p),
        p.spec_encode() == v.spec_encode(),
        crate::v5::pubaclc::in_family(p.packet_type),
{
}

/// A CONNECT that can be written and is canonical is read back, as a packet of
/// its kind, from what `encode` gives.
#[verifier::rlimit(40)]
proof fn lemma_packet_connect(p: ConnectView)
    requires
        p.spec_encode() is Ok,
        p.canonical(),
    ensures
        PacketView::dec(p.spec_encode()->Ok_0) == Ok::<(PacketView, int), Error>(
            (PacketView::Connect(p), p.spec_encode()->Ok_0.len() as int),
        ),
{
    reveal(PacketView::dec_kind);
    law_connect_decode_encode(p);
    lemma_encoded_first_byte(p.header(), p.body());
    lemma_first_byte(PacketType::Connect);
}

/// A CONNACK that can be written and is canonical is read back, as a packet of
/// its kind, from what `encode` gives.
#[verifier::rlimit(40)]
proof fn lemma_packet_connack(p: ConnAckView)
    requires
        p.spec_encode() is Ok,
        p.canonical(),
    ensures
        PacketView::dec(p.spec_encode()->Ok_0) == Ok::<(PacketView, int), Error>(
            (PacketView::ConnAck(p), p.spec_encode()->Ok_0.len() as int),
        ),
{
    reveal(PacketView::dec_kind);
    law_connack_decode_encode(p);
    lemma_encoded_first_byte(p.header(), p.body());
    lemma_first_byte(PacketType::ConnAck);
}

/// A PUBLISH that can be written and is canonical is read back, as a packet of
/// its kind, from what `encode` gives.
#[verifier::rlimit(40)]
proof fn lemma_packet_publish(p: PublishView)
    requires
        p.spec_encode() is Ok,
        p.canonical(),
    ensures
        PacketView::dec(p.spec_encode()->Ok_0) == Ok::<(PacketView, int), Error>(
            (PacketView::Publish(p), p.spec_encode()->Ok_0.len() as int),
        ),
{
    reveal(PacketView::dec_kind);
    law_publish_decode_encode(p);
    lemma_encoded_first_byte(p.header(), p.body());
    crate::v5::publish::lemma_publish_byte(p.retain, p.qos, p.duplicate);
}

/// A SUBSCRIBE that can be written and is canonical is read back, as a packet of
/// its kind, from what `encode` gives.
#[verifier::rlimit(40)]
proof fn lemma_packet_subscribe(p: SubscribeView)
    requires
        p.spec_encode() is Ok,
        p.canonical(),
    ensures
        PacketView::dec(p.spec_encode()->Ok_0) == Ok::<(PacketView, int), Error>(
            (PacketView::Subscribe(p), p.spec_encode()->Ok_0.len() as int),
        ),
{
    reveal(PacketView::dec_kind);
    law_subscribe_decode_encode(p);
    lemma_encoded_first_byte(p.header(), p.body());
    lemma_first_byte(PacketType::Subscribe);
}

/// A SUBACK that can be written and is canonical is read back, as a packet of
/// its kind, from what `encode` gives.
#[verifier::rlimit(40)]
proof fn lemma_packet_suback(p: SubAckView)
    requires
        p.spec_encode() is Ok,
        p.canonical(),
    ensures
        PacketView::dec(p.spec_encode()->Ok_0) == Ok::<(PacketView, int), Error>(
            (PacketView::SubAck(p), p.spec_encode()->Ok_0.len() as int),
        ),
{
    reveal(PacketView::dec_kind);
    law_suback_decode_encode(p);
    lemma_encoded_first_byte(p.header(), p.body());
    lemma_first_byte(PacketType::SubAck);
}

/// An UNSUBSCRIBE that can be written and is canonical is read back, as a packet of
/// its kind, from what `encode` gives.
#[verifier::rlimit(40)]
proof fn lemma_packet_unsubscribe(p: UnSubscribeView)
    requires
        p.spec_encode() is Ok,
        p.canonical(),
    ensures
        PacketView::dec(p.spec_encode()->Ok_0) == Ok::<(PacketView, int), Error>(
            (PacketView::UnSubscribe(p), p.spec_encode()->Ok_0.len() as int),
        ),
{
    reveal(PacketView::dec_kind);
    law_unsubscribe_decode_encode(p);
    lemma_encoded_first_byte(p.header(), p.body());
    lemma_first_byte(PacketType::UnSubscribe);
}

/// An UNSUBACK that can be written and is canonical is read back, as a packet of
/// its kind, from what `encode` gives.
#[verifier::rlimit(40)]
proof fn lemma_packet_unsuback(p: UnsubAckView)
    requires
        p.spec_encode() is Ok,
        p.canonical(),
    ensures
        PacketView::dec(p.spec_encode()->Ok_0) == Ok::<(PacketView, int), Error>(
            (PacketView::UnsubAck(p), p.spec_encode()->Ok_0.len() as int),
        ),
{
    reveal(PacketView::dec_kind);
    law_unsuback_decode_encode(p);
    lemma_encoded_first_byte(p.header(), p.body());
    lemma_first_byte(PacketType::UnsubAck);
}

/// A DISCONNECT that can be written and is canonical is read back, as a packet of
/// its kind, from what `encode` gives.
#[verifier::rlimit(40)]
proof fn lemma_packet_disconnect(p: DisconnectView)
    requires
        p.spec_encode() is Ok,
        p.canonical(),
    ensures
        PacketView::dec(p.spec_encode()->Ok_0) == Ok::<(PacketView, int), Error>(
            (PacketView::Disconnect(p), p.spec_encode()->Ok_0.len() as int),
        ),
{
    reveal(PacketView::dec_kind);
    law_disconnect_decode_encode(p);
    lemma_encoded_first_byte(p.header(), p.body());
    lemma_first_byte(PacketType::Disconnect);
}

/// An AUTH that can be written and is canonical is read back, as a packet of
/// its kind, from what `encode` gives.
#[verifier::rlimit(40)]
proof fn lemma_packet_auth(p: AuthView)
    requires
        p.spec_encode() is Ok,
        p.canonical(),
    ensures
        PacketView::dec(p.spec_encode()->Ok_0) == Ok::<(PacketView, int), Error>(
            (PacketView::Auth(p), p.spec_encode()->Ok_0.len() as int),
        ),
{
    reveal(PacketView::dec_kind);
    law_auth_decode_encode(p);
    lemma_encoded_first_byte(p.header(), p.body());
    lemma_first_byte(PacketType::Auth);
}

/// An acknowledgement of a PUBLISH that can be written and is canonical is
/// read back, in the variant of its kind, from what `encode` gives.
#[verifier::rlimit(40)]
proof fn lemma_packet_ack(p: PubARLCView)
    requires
        p.spec_encode() is Ok,
        p.canonical(),
    ensures
        PacketView::dec(p.spec_encode()->Ok_0) == Ok::<(PacketView, int), Error>(
            (PacketView::of_ack(p), p.spec_encode()->Ok_0.len() as int),
        ),
{
    reveal(PacketView::dec_kind);
    law_decode_encode(p);
    lemma_encoded_first_byte(p.header(), p.body());
    lemma_first_byte(p.packet_type);
}

/// Reading is the inverse of writing, for every kind of packet: a packet that
/// `encode` accepts and that is canonical is what `decode` reads from the bytes
/// that `encode` gave, and all of those bytes are read.
#[verifier::rlimit(40)]
pub proof fn law_packet_decode_encode(v: PacketView)
    requires
        v.spec_encode() is Ok,
        v.canonical(),
    ensures
        PacketView::dec(v.spec_encode()->Ok_0) == Ok::<(PacketView, int), Error>(
            (v, v.spec_encode()->Ok_0.len() as int),
        ),
{
    match v {
        PacketView::Connect(p) => {
            lemma_packet_connect(p);
        },
        PacketView::ConnAck(p) => {
            lemma_packet_connack(p);
        },
        PacketView::Publish(p) => {
            lemma_packet_publish(p);
        },
        PacketView::Subscribe(p) => {
            lemma_packet_subscribe(p);
        },
        PacketView::SubAck(p) => {
            lemma_packet_suback(p);
        },
        PacketView::UnSubscribe(p) => {
            lemma_packet_unsubscribe(p);
        },
        PacketView::UnsubAck(p) => {
            lemma_packet_unsuback(p);
        },
        PacketView::Disconnect(p) => {
            lemma_packet_disconnect(p);
        },
        PacketView::Auth(p) => {
            lemma_packet_auth(p);
        },
        PacketView::PubAck(p) | PacketView::PubRec(p) | PacketView::PubRel(p) | PacketView::PubComp(
            p,
        ) => {
            lemma_ack_variant(v, p);
            lemma_packet_ack(p);
        },
        PacketView::PingReq => {
            reveal(PacketView::dec_kind);
            lemma_dec_enc_bare(PacketType::PingReq);
        },
        PacketView::PingResp => {
            reveal(PacketView::dec_kind);
            lemma_dec_enc_bare(PacketType::PingResp);
        },
    }
}

/// What keeps a packet that was read from being written again as it was read:
/// a packet of a kind that is not held to the length that its fixed header
/// names is too long to be written.
pub open spec fn rewritable(v: PacketView) -> bool {
    match v {
        PacketView::Connect(p) => p.body().len() <= VARU32_MAX,
        PacketView::ConnAck(p) => p.body().len() <= VARU32_MAX,
        PacketView::PubAck(p) => p.body().len() <= VARU32_MAX,
        PacketView::PubRec(p) => p.body().len() <= VARU32_MAX,
        PacketView::PubRel(p) => p.body().len() <= VARU32_MAX,
        PacketView::PubComp(p) => p.body().len() <= VARU32_MAX,
        PacketView::Disconnect(p) => p.body().len() <= VARU32_MAX,
        PacketView::Auth(p) => p.body().len() <= VARU32_MAX,
        _ => true,
    }
}

/// Writing is the inverse of reading, up to the form of what was read, for
/// every kind of packet: a packet that `decode` read from any bytes, and that
/// nothing keeps from being written again, is canonical, is accepted by
/// `encode`, and is read back from what `encode` gives.
#[verifier::rlimit(40)]
pub proof fn law_packet_encode_decode(b: Seq<u8>)
    requires
        PacketView::dec(b) is Ok,
        rewritable(PacketView::dec(b)->Ok_0.0),
    ensures
        ({
            let v = PacketView::dec(b)->Ok_0.0;
            &&& v.canonical()
            &&& v.spec_encode() is Ok
            &&& PacketView::dec(v.spec_encode()->Ok_0) == Ok::<(PacketView, int), Error>(
                (v, v.spec_encode()->Ok_0.len() as int),
            )
        }),
{
    reveal(PacketView::dec_kind);
    let v = PacketView::dec(b)->Ok_0.0;
    let t = PacketType::spec_from_u8(b[0] / 16)->Ok_0;
    match t {
        PacketType::Connect => {
            law_connect_encode_decode(b);
        },
        PacketType::ConnAck => {
            law_connack_encode_decode(b);
        },
        PacketType::Publish => {
            law_publish_encode_decode(b);
        },
        PacketType::Subscribe => {
            law_subscribe_encode_decode(b);
        },
        PacketType::SubAck => {
            law_suback_encode_decode(b);
        },
        PacketType::UnSubscribe => {
            law_unsubscribe_encode_decode(b);
        },
        PacketType::UnsubAck => {
            law_unsuback_encode_decode(b);
        },
        PacketType::Disconnect => {
            law_disconnect_encode_decode(b);
        },
        PacketType::Auth => {
            law_auth_encode_decode(b);
        },
        PacketType::PubAck | PacketType::PubRec | PacketType::PubRel | PacketType::PubComp => {
            reveal(PubARLCView::dec);
            let p = PubARLCView::dec(b, 0)->Ok_0.0;
            assert(v == PacketView::of_ack(p));
            assert(crate::v5::pubaclc::in_family(p.packet_type));
            law_encode_decode(b);
        },
        PacketType::PingReq | PacketType::PingResp => {},
    }
    law_packet_decode_encode(v);
}

} // verus!
