//! MQTT v5 control packets.

pub mod auth;
pub mod connack;
pub mod connect;
pub mod disconnect;
pub mod packet;
pub mod property;
pub mod publish;
pub mod pubaclc;
pub mod sample;
pub mod sub;
pub mod suback;
pub mod unsuback;
pub mod unsubscribe;

use vstd::prelude::*;
use crate::error::{Error, malformed, unsupported_version};
use crate::wire::{
    agrees, dec_u8, dec_varu32, decode_u8, decode_varu32, enc_u8, enc_varu32, has_at,
    lemma_dec_enc_u8, lemma_dec_enc_varu32, lemma_has_at_split, put_u8, put_varu32, str_bytes,
    varu32_len, VARU32_MAX,
};

verus! {

/// A variable-byte integer as a field of a packet.
#[derive(Clone, Copy, Debug, PartialEq, Eq, Structural)]
pub struct VarU32(pub u32);

/// An identifier of a packet within one session and one direction; 0 is
/// reserved.
pub type PacketID = u16;

/// The client identifier of a session.
#[derive(Clone, Debug, PartialEq, Eq)]
pub struct ClientID(pub String);

/// The name of a topic, as it stands in a PUBLISH or a will.
#[derive(Clone, Debug, PartialEq, Eq)]
pub struct TopicName(pub String);

/// A topic filter, as it stands in a SUBSCRIBE.
#[derive(Clone, Debug, PartialEq, Eq)]
pub struct TopicFilter(pub String);

/// A name and a value attached to a packet by the application.
pub type UserProperty = (String, String);

impl View for ClientID {
    type V = Seq<u8>;

    open spec fn view(&self) -> Seq<u8> {
        str_bytes(self.0@)
    }
}

impl View for TopicName {
    type V = Seq<u8>;

    open spec fn view(&self) -> Seq<u8> {
        str_bytes(self.0@)
    }
}

impl View for TopicFilter {
    type V = Seq<u8>;

    open spec fn view(&self) -> Seq<u8> {
        str_bytes(self.0@)
    }
}

/// The bytes of an optional string.
pub open spec fn opt_str_view(s: Option<String>) -> Option<Seq<u8>> {
    match s {
        Some(s) => Some(str_bytes(s@)),
        None => None,
    }
}

/// The bytes of optional binary data.
pub open spec fn opt_bin_view(s: Option<Vec<u8>>) -> Option<Seq<u8>> {
    match s {
        Some(s) => Some(s@),
        None => None,
    }
}

/// The bytes of the two halves of each user property, in order.
pub open spec fn user_props_view(ps: Seq<UserProperty>) -> Seq<(Seq<u8>, Seq<u8>)> {
    Seq::new(ps.len(), |k: int| (str_bytes(ps[k].0@), str_bytes(ps[k].1@)))
}

/// Quality of service of a delivery.
#[derive(Clone, Copy, Debug, PartialEq, Eq, Structural)]
pub enum QoS {
    AtMostOnce,
    AtLeastOnce,
    ExactlyOnce,
}

impl QoS {
    pub open spec fn spec_to_u8(self) -> u8 {
        match self {
            QoS::AtMostOnce => 0,
            QoS::AtLeastOnce => 1,
            QoS::ExactlyOnce => 2,
        }
    }

    pub open spec fn spec_from_u8(v: u8) -> Result<QoS, Error> {
        if v == 0 {
            Ok(QoS::AtMostOnce)
        } else if v == 1 {
            Ok(QoS::AtLeastOnce)
        } else if v == 2 {
            Ok(QoS::ExactlyOnce)
        } else {
            Err(malformed())
        }
    }

    #[verifier::when_used_as_spec(spec_to_u8)]
    pub fn to_u8(self) -> (b: u8)
        ensures
            b == self.spec_to_u8(),
    {
        match self {
            QoS::AtMostOnce => 0,
            QoS::AtLeastOnce => 1,
            QoS::ExactlyOnce => 2,
        }
    }

    /// The quality of service that `v` stands for; 3 and above stand for none
    /// and are malformed.
    pub fn try_from_u8(v: u8) -> (res: Result<QoS, Error>)
        ensures
            res == Self::spec_from_u8(v),
    {
        if v == 0 {
            Ok(QoS::AtMostOnce)
        } else if v == 1 {
            Ok(QoS::AtLeastOnce)
        } else if v == 2 {
            Ok(QoS::ExactlyOnce)
        } else {
            Err(Error::malformed())
        }
    }
}

/// Versions of the protocol that a CONNECT can name.
#[derive(Clone, Copy, Debug, PartialEq, Eq, Structural)]
pub enum MqttProtocol {
    V4,
    V5,
}

impl MqttProtocol {
    pub open spec fn spec_to_u8(self) -> u8 {
        match self {
            MqttProtocol::V4 => 4,
            MqttProtocol::V5 => 5,
        }
    }

    pub open spec fn spec_from_u8(v: u8) -> Result<MqttProtocol, Error> {
        if v == 4 {
            Ok(MqttProtocol::V4)
        } else if v == 5 {
            Ok(MqttProtocol::V5)
        } else {
            Err(unsupported_version())
        }
    }

    #[verifier::when_used_as_spec(spec_to_u8)]
    pub fn to_u8(self) -> (b: u8)
        ensures
            b == self.spec_to_u8(),
    {
        match self {
            MqttProtocol::V4 => 4,
            MqttProtocol::V5 => 5,
        }
    }

    /// The version that `v` stands for; an unknown version is a protocol error
    /// with the reason "unsupported protocol version".
    pub fn try_from_u8(v: u8) -> (res: Result<MqttProtocol, Error>)
        ensures
            res == Self::spec_from_u8(v),
    {
        if v == 4 {
            Ok(MqttProtocol::V4)
        } else if v == 5 {
            Ok(MqttProtocol::V5)
        } else {
            Err(Error::unsupported_version())
        }
    }
}

/// Whether a payload is opaque bytes or UTF-8 text.
#[derive(Clone, Copy, Debug, PartialEq, Eq, Structural)]
pub enum PayloadFormat {
    Binary,
    Utf8,
}

impl PayloadFormat {
    pub open spec fn spec_to_u8(self) -> u8 {
        match self {
            PayloadFormat::Binary => 0,
            PayloadFormat::Utf8 => 1,
        }
    }

    pub open spec fn spec_from_u8(v: u8) -> Result<PayloadFormat, Error> {
        if v == 0 {
            Ok(PayloadFormat::Binary)
        } else if v == 1 {
            Ok(PayloadFormat::Utf8)
        } else {
            Err(malformed())
        }
    }

    #[verifier::when_used_as_spec(spec_to_u8)]
    pub fn to_u8(self) -> (b: u8)
        ensures
            b == self.spec_to_u8(),
    {
        match self {
            PayloadFormat::Binary => 0,
            PayloadFormat::Utf8 => 1,
        }
    }

    pub fn try_from_u8(v: u8) -> (res: Result<PayloadFormat, Error>)
        ensures
            res == Self::spec_from_u8(v),
    {
        if v == 0 {
            Ok(PayloadFormat::Binary)
        } else if v == 1 {
            Ok(PayloadFormat::Utf8)
        } else {
            Err(Error::malformed())
        }
    }

    pub fn is_utf8(&self) -> (b: bool)
        ensures
            b == (*self == PayloadFormat::Utf8),
    {
        match self {
            PayloadFormat::Utf8 => true,
            PayloadFormat::Binary => false,
        }
    }
}

/// The fifteen kinds of control packet.
#[derive(Clone, Copy, Debug, PartialEq, Eq, Structural)]
pub enum PacketType {
    Connect,
    ConnAck,
    Publish,
    PubAck,
    PubRec,
    PubRel,
    PubComp,
    Subscribe,
    SubAck,
    UnSubscribe,
    UnsubAck,
    PingReq,
    PingResp,
    Disconnect,
    Auth,
}

impl PacketType {
    /// The number of this kind, which fills the upper half of a packet's first
    /// byte.
    pub open spec fn spec_to_u8(self) -> u8 {
        match self {
            PacketType::Connect => 1,
            PacketType::ConnAck => 2,
            PacketType::Publish => 3,
            PacketType::PubAck => 4,
            PacketType::PubRec => 5,
            PacketType::PubRel => 6,
            PacketType::PubComp => 7,
            PacketType::Subscribe => 8,
            PacketType::SubAck => 9,
            PacketType::UnSubscribe => 10,
            PacketType::UnsubAck => 11,
            PacketType::PingReq => 12,
            PacketType::PingResp => 13,
            PacketType::Disconnect => 14,
            PacketType::Auth => 15,
        }
    }

    pub open spec fn spec_from_u8(v: u8) -> Result<PacketType, Error> {
        if v == 1 {
            Ok(PacketType::Connect)
        } else if v == 2 {
            Ok(PacketType::ConnAck)
        } else if v == 3 {
            Ok(PacketType::Publish)
        } else if v == 4 {
            Ok(PacketType::PubAck)
        } else if v == 5 {
            Ok(PacketType::PubRec)
        } else if v == 6 {
            Ok(PacketType::PubRel)
        } else if v == 7 {
            Ok(PacketType::PubComp)
        } else if v == 8 {
            Ok(PacketType::Subscribe)
        } else if v == 9 {
            Ok(PacketType::SubAck)
        } else if v == 10 {
            Ok(PacketType::UnSubscribe)
        } else if v == 11 {
            Ok(PacketType::UnsubAck)
        } else if v == 12 {
            Ok(PacketType::PingReq)
        } else if v == 13 {
            Ok(PacketType::PingResp)
        } else if v == 14 {
            Ok(PacketType::Disconnect)
        } else if v == 15 {
            Ok(PacketType::Auth)
        } else {
            Err(malformed())
        }
    }

    /// The lower half of the first byte that this kind of packet must carry, or
    /// `None` where the kind gives the bits a meaning of their own (PUBLISH).
    pub open spec fn spec_fixed_flags(self) -> Option<u8> {
        match self {
            PacketType::Publish => None,
            PacketType::PubRel => Some(2u8),
            PacketType::Subscribe => Some(2u8),
            PacketType::UnSubscribe => Some(2u8),
            _ => Some(0u8),
        }
    }

    #[verifier::when_used_as_spec(spec_to_u8)]
    pub fn to_u8(self) -> (b: u8)
        ensures
            b == self.spec_to_u8(),
            1 <= b <= 15,
    {
        match self {
            PacketType::Connect => 1,
            PacketType::ConnAck => 2,
            PacketType::Publish => 3,
            PacketType::PubAck => 4,
            PacketType::PubRec => 5,
            PacketType::PubRel => 6,
            PacketType::PubComp => 7,
            PacketType::Subscribe => 8,
            PacketType::SubAck => 9,
            PacketType::UnSubscribe => 10,
            PacketType::UnsubAck => 11,
            PacketType::PingReq => 12,
            PacketType::PingResp => 13,
            PacketType::Disconnect => 14,
            PacketType::Auth => 15,
        }
    }

    /// The kind with number `v`; 0 and numbers above 15 are malformed.
    pub fn try_from_u8(v: u8) -> (res: Result<PacketType, Error>)
        ensures
            res == Self::spec_from_u8(v),
    {
        match v {
            1 => Ok(PacketType::Connect),
            2 => Ok(PacketType::ConnAck),
            3 => Ok(PacketType::Publish),
            4 => Ok(PacketType::PubAck),
            5 => Ok(PacketType::PubRec),
            6 => Ok(PacketType::PubRel),
            7 => Ok(PacketType::PubComp),
            8 => Ok(PacketType::Subscribe),
            9 => Ok(PacketType::SubAck),
            10 => Ok(PacketType::UnSubscribe),
            11 => Ok(PacketType::UnsubAck),
            12 => Ok(PacketType::PingReq),
            13 => Ok(PacketType::PingResp),
            14 => Ok(PacketType::Disconnect),
            15 => Ok(PacketType::Auth),
            _ => Err(Error::malformed()),
        }
    }

    #[verifier::when_used_as_spec(spec_fixed_flags)]
    pub fn fixed_flags(self) -> (f: Option<u8>)
        ensures
            f == self.spec_fixed_flags(),
    {
        match self {
            PacketType::Publish => None,
            PacketType::PubRel => Some(2u8),
            PacketType::Subscribe => Some(2u8),
            PacketType::UnSubscribe => Some(2u8),
            _ => Some(0u8),
        }
    }
}

/// The fixed header that starts every packet: a byte with the packet's kind in
/// its upper half and flags in its lower half, then the number of bytes that
/// follow the header.
#[derive(Clone, Copy, Debug, PartialEq, Eq, Structural)]
pub struct FixedHeader {
    pub byte1: u8,
    pub remaining_len: VarU32,
}

/// The first byte of a packet of kind `t` with the flags `flags < 16`.
pub open spec fn first_byte(t: PacketType, flags: u8) -> u8 {
    (t.spec_to_u8() * 16 + flags) as u8
}

/// The first byte of a packet names a kind, and its flags are ones that the
/// kind allows: for PUBLISH any but quality of service 3, for the others the
/// one fixed pattern.
pub open spec fn first_byte_valid(b: u8) -> Result<(), Error> {
    match PacketType::spec_from_u8(b / 16) {
        Err(e) => Err(e),
        Ok(t) => match t.spec_fixed_flags() {
            Some(f) => if b % 16 == f {
                Ok(())
            } else {
                Err(malformed())
            },
            None => if (b % 16) / 2 % 4 == 3 {
                Err(malformed())
            } else {
                Ok(())
            },
        },
    }
}

impl FixedHeader {
    /// A fixed header read at position `i`. Nothing is checked but that the
    /// bytes are there and the length is a variable-byte integer.
    pub open spec fn dec(s: Seq<u8>, i: int) -> Result<(FixedHeader, int), Error> {
        match dec_u8(s, i) {
            Err(e) => Err(e),
            Ok((b, j)) => match dec_varu32(s, j) {
                Err(e) => Err(e),
                Ok((len, k)) => Ok((FixedHeader { byte1: b, remaining_len: VarU32(len) }, k)),
            },
        }
    }

    /// The bytes of a fixed header whose length is at most `VARU32_MAX`.
    pub open spec fn enc(self) -> Seq<u8> {
        enc_u8(self.byte1) + enc_varu32(self.remaining_len.0)
    }

    /// The kind of packet that the header announces.
    pub open spec fn spec_packet_type(self) -> Result<PacketType, Error> {
        PacketType::spec_from_u8(self.byte1 / 16)
    }

    pub open spec fn spec_validate(self) -> Result<(), Error> {
        first_byte_valid(self.byte1)
    }

    /// The header of a packet of kind `packet_type` that is no PUBLISH, with the
    /// flags that the kind demands. A length above `VARU32_MAX` is malformed.
    pub fn new(packet_type: PacketType, remaining_len: VarU32) -> (res: Result<FixedHeader, Error>)
        requires
            packet_type != PacketType::Publish,
        ensures
            remaining_len.0 <= VARU32_MAX ==> res == Ok::<FixedHeader, Error>(
                FixedHeader {
                    byte1: first_byte(packet_type, packet_type.spec_fixed_flags()->Some_0),
                    remaining_len,
                },
            ),
            remaining_len.0 > VARU32_MAX ==> res == Err::<FixedHeader, Error>(malformed()),
            res matches Ok(fh) ==> fh.spec_validate() is Ok && fh.spec_packet_type() == Ok::<
                PacketType,
                Error,
            >(packet_type),
    {
        if remaining_len.0 > VARU32_MAX {
            return Err(Error::malformed());
        }
        let flags: u8 = match packet_type.fixed_flags() {
            Some(f) => f,
            None => 0,
        };
        Ok(FixedHeader { byte1: packet_type.to_u8() * 16 + flags, remaining_len })
    }

    /// The header of a SUBSCRIBE.
    pub fn new_subscribe(remaining_len: VarU32) -> (res: Result<FixedHeader, Error>)
        ensures
            remaining_len.0 <= VARU32_MAX ==> res == Ok::<FixedHeader, Error>(
                FixedHeader { byte1: 0x82, remaining_len },
            ),
            remaining_len.0 > VARU32_MAX ==> res == Err::<FixedHeader, Error>(malformed()),
    {
        Self::new(PacketType::Subscribe, remaining_len)
    }

    /// The header of a PUBREL.
    pub fn new_pubrel(remaining_len: VarU32) -> (res: Result<FixedHeader, Error>)
        ensures
            remaining_len.0 <= VARU32_MAX ==> res == Ok::<FixedHeader, Error>(
                FixedHeader { byte1: 0x62, remaining_len },
            ),
            remaining_len.0 > VARU32_MAX ==> res == Err::<FixedHeader, Error>(malformed()),
    {
        Self::new(PacketType::PubRel, remaining_len)
    }

    /// The header of a PUBLISH with the given flags.
    pub fn new_publish(retain: bool, qos: QoS, dup: bool, remaining_len: VarU32) -> (res: Result<
        FixedHeader,
        Error,
    >)
        ensures
            remaining_len.0 <= VARU32_MAX ==> res == Ok::<FixedHeader, Error>(
                FixedHeader { byte1: publish_byte(retain, qos, dup), remaining_len },
            ),
            remaining_len.0 > VARU32_MAX ==> res == Err::<FixedHeader, Error>(malformed()),
    {
        if remaining_len.0 > VARU32_MAX {
            return Err(Error::malformed());
        }
        let r: u8 = if retain {
            1
        } else {
            0
        };
        let d: u8 = if dup {
            8
        } else {
            0
        };
        Ok(FixedHeader { byte1: 48 + d + qos.to_u8() * 2 + r, remaining_len })
    }

    /// Reads a fixed header at `off`.
    pub fn decode(stream: &[u8], off: usize) -> (res: Result<(FixedHeader, usize), Error>)
        ensures
            agrees(res, Self::dec(stream@, off as int)),
            res matches Ok((fh, n)) ==> off + 1 < n <= off + 5 && n <= stream@.len()
                && fh.remaining_len.0 <= VARU32_MAX,
    {
        match decode_u8(stream, off) {
            Err(e) => Err(e),
            Ok((b, j)) => match decode_varu32(stream, j) {
                Err(e) => Err(e),
                Ok((len, k)) => Ok((FixedHeader { byte1: b, remaining_len: VarU32(len) }, k)),
            },
        }
    }

    /// Appends the header to `data`; a length above `VARU32_MAX` is refused.
    pub fn encode_into(&self, data: &mut Vec<u8>) -> (res: Result<(), Error>)
        ensures
            self.remaining_len.0 <= VARU32_MAX ==> res is Ok && final(data)@ == old(data)@
                + self.enc(),
            self.remaining_len.0 > VARU32_MAX ==> res == Err::<(), Error>(malformed()),
    {
        if self.remaining_len.0 > VARU32_MAX {
            return Err(Error::malformed());
        }
        put_u8(data, self.byte1);
        let r = put_varu32(data, self.remaining_len.0);
        assert(data@ =~= old(data)@ + self.enc());
        r
    }

    /// Checks that the first byte names a kind of packet and carries flags that
    /// the kind allows.
    pub fn validate(&self) -> (res: Result<(), Error>)
        ensures
            res == self.spec_validate(),
    {
        match PacketType::try_from_u8(self.byte1 / 16) {
            Err(e) => Err(e),
            Ok(t) => match t.fixed_flags() {
                Some(f) => if self.byte1 % 16 == f {
                    Ok(())
                } else {
                    Err(Error::malformed())
                },
                None => if (self.byte1 % 16) / 2 % 4 == 3 {
                    Err(Error::malformed())
                } else {
                    Ok(())
                },
            },
        }
    }

    /// The kind of packet, and the retain flag, quality of service and
    /// duplicate flag that the lower half of the first byte holds in a PUBLISH.
    pub fn unwrap(&self) -> (res: Result<(PacketType, bool, QoS, bool), Error>)
        ensures
            res == spec_unwrap_first_byte(self.byte1),
    {
        match PacketType::try_from_u8(self.byte1 / 16) {
            Err(e) => Err(e),
            Ok(t) => match QoS::try_from_u8((self.byte1 % 16) / 2 % 4) {
                Err(e) => Err(e),
                Ok(qos) => Ok((t, self.byte1 % 2 == 1, qos, (self.byte1 % 16) / 8 == 1)),
            },
        }
    }
}

/// The first byte of a PUBLISH.
pub open spec fn publish_byte(retain: bool, qos: QoS, dup: bool) -> u8 {
    (48 + (if dup {
        8int
    } else {
        0int
    }) + qos.spec_to_u8() * 2 + (if retain {
        1int
    } else {
        0int
    })) as u8
}

/// What the first byte of a packet says: kind, retain, quality of service,
/// duplicate.
pub open spec fn spec_unwrap_first_byte(b: u8) -> Result<(PacketType, bool, QoS, bool), Error> {
    match PacketType::spec_from_u8(b / 16) {
        Err(e) => Err(e),
        Ok(t) => match QoS::spec_from_u8(((b % 16) / 2 % 4) as u8) {
            Err(e) => Err(e),
            Ok(qos) => Ok((t, b % 2 == 1, qos, (b % 16) / 8 == 1)),
        },
    }
}

/// A fixed header read back where it was written is the one written.
pub proof fn lemma_dec_enc_fixed_header(s: Seq<u8>, i: int, fh: FixedHeader)
    requires
        fh.remaining_len.0 <= VARU32_MAX,
        has_at(s, i, fh.enc()),
    ensures
        FixedHeader::dec(s, i) == Ok::<(FixedHeader, int), Error>(
            (fh, i + 1 + varu32_len(fh.remaining_len.0)),
        ),
        fh.enc().len() == 1 + varu32_len(fh.remaining_len.0),
{
    lemma_has_at_split(s, i, enc_u8(fh.byte1), enc_varu32(fh.remaining_len.0));
    lemma_dec_enc_u8(s, i, fh.byte1);
    lemma_dec_enc_varu32(s, i + 1, fh.remaining_len.0);
}

/// The first byte that `FixedHeader::new` gives a packet of kind `t` names
/// that kind and is valid.
pub proof fn lemma_first_byte(t: PacketType)
    requires
        t != PacketType::Publish,
    ensures
        first_byte_valid(first_byte(t, t.spec_fixed_flags()->Some_0)) is Ok,
        PacketType::spec_from_u8(first_byte(t, t.spec_fixed_flags()->Some_0) / 16) == Ok::<
            PacketType,
            Error,
        >(t),
{
}

} // verus!
