//! The properties sections of MQTT v5 packets.
//!
//! A section is a variable-byte length followed by that many bytes of
//! properties; a property is an identifier followed by a value whose form the
//! identifier decides. A section is read into a `PropBag`, which holds each
//! property at most once (user properties any number of times) and takes in only
//! what the packet at hand allows.

use vstd::prelude::*;
use vstd::utf8::*;
use vstd::slice::*;
use crate::error::{Error, malformed, protocol_error};
use crate::wire::{
    agrees_view, dec_bytes, dec_string, dec_u16, dec_u32, dec_u8, dec_varu32, decode_bytes,
    decode_string, decode_u16, decode_u32, decode_u8, decode_varu32, enc_bytes, enc_u16, enc_u32,
    enc_u8, enc_varu32, has_at, lemma_dec_enc_bytes, lemma_dec_enc_string, lemma_dec_enc_u16,
    lemma_dec_enc_u32, lemma_dec_enc_u8, lemma_dec_enc_varu32, lemma_enc_dec_bytes,
    lemma_has_at_split, put_bytes, put_string, put_u16, put_u32, put_u8, put_varu32, str_bytes,
    varu32_len, FIELD_MAX, VARU32_MAX,
};
use crate::v5::{opt_bin_view, opt_str_view, user_props_view, UserProperty};

verus! {

/// The properties that MQTT v5 defines.
#[derive(Clone, Copy, Debug, PartialEq, Eq, Structural)]
pub enum PropertyType {
    PayloadFormatIndicator,
    MessageExpiryInterval,
    ContentType,
    ResponseTopic,
    CorrelationData,
    SubscriptionIdentifier,
    SessionExpiryInterval,
    AssignedClientIdentifier,
    ServerKeepAlive,
    AuthenticationMethod,
    AuthenticationData,
    RequestProblemInformation,
    WillDelayInterval,
    RequestResponseInformation,
    ResponseInformation,
    ServerReference,
    ReasonString,
    ReceiveMaximum,
    TopicAliasMaximum,
    TopicAlias,
    MaximumQoS,
    RetainAvailable,
    UserProp,
    MaximumPacketSize,
    WildcardSubscriptionAvailable,
    SubscriptionIdentifierAvailable,
    SharedSubscriptionAvailable,
}

/// The forms that the value of a property can have.
#[derive(Clone, Copy, Debug, PartialEq, Eq, Structural)]
pub enum ValueKind {
    Byte,
    TwoByte,
    FourByte,
    VarInt,
    Text,
    Binary,
    TextPair,
}

impl PropertyType {
    /// The identifier of the property on the wire.
    pub open spec fn spec_id(self) -> u8 {
        match self {
            PropertyType::PayloadFormatIndicator => 0x01,
            PropertyType::MessageExpiryInterval => 0x02,
            PropertyType::ContentType => 0x03,
            PropertyType::ResponseTopic => 0x08,
            PropertyType::CorrelationData => 0x09,
            PropertyType::SubscriptionIdentifier => 0x0B,
            PropertyType::SessionExpiryInterval => 0x11,
            PropertyType::AssignedClientIdentifier => 0x12,
            PropertyType::ServerKeepAlive => 0x13,
            PropertyType::AuthenticationMethod => 0x15,
            PropertyType::AuthenticationData => 0x16,
            PropertyType::RequestProblemInformation => 0x17,
            PropertyType::WillDelayInterval => 0x18,
            PropertyType::RequestResponseInformation => 0x19,
            PropertyType::ResponseInformation => 0x1A,
            PropertyType::ServerReference => 0x1C,
            PropertyType::ReasonString => 0x1F,
            PropertyType::ReceiveMaximum => 0x21,
            PropertyType::TopicAliasMaximum => 0x22,
            PropertyType::TopicAlias => 0x23,
            PropertyType::MaximumQoS => 0x24,
            PropertyType::RetainAvailable => 0x25,
            PropertyType::UserProp => 0x26,
            PropertyType::MaximumPacketSize => 0x27,
            PropertyType::WildcardSubscriptionAvailable => 0x28,
            PropertyType::SubscriptionIdentifierAvailable => 0x29,
            PropertyType::SharedSubscriptionAvailable => 0x2A,
        }
    }

    /// The property that the identifier `id` names, if it names one.
    pub open spec fn spec_from_id(id: u32) -> Option<PropertyType> {
        if id == 0x01 {
            Some(PropertyType::PayloadFormatIndicator)
        } else if id == 0x02 {
            Some(PropertyType::MessageExpiryInterval)
        } else if id == 0x03 {
            Some(PropertyType::ContentType)
        } else if id == 0x08 {
            Some(PropertyType::ResponseTopic)
        } else if id == 0x09 {
            Some(PropertyType::CorrelationData)
        } else if id == 0x0B {
            Some(PropertyType::SubscriptionIdentifier)
        } else if id == 0x11 {
            Some(PropertyType::SessionExpiryInterval)
        } else if id == 0x12 {
            Some(PropertyType::AssignedClientIdentifier)
        } else if id == 0x13 {
            Some(PropertyType::ServerKeepAlive)
        } else if id == 0x15 {
            Some(PropertyType::AuthenticationMethod)
        } else if id == 0x16 {
            Some(PropertyType::AuthenticationData)
        } else if id == 0x17 {
            Some(PropertyType::RequestProblemInformation)
        } else if id == 0x18 {
            Some(PropertyType::WillDelayInterval)
        } else if id == 0x19 {
            Some(PropertyType::RequestResponseInformation)
        } else if id == 0x1A {
            Some(PropertyType::ResponseInformation)
        } else if id == 0x1C {
            Some(PropertyType::ServerReference)
        } else if id == 0x1F {
            Some(PropertyType::ReasonString)
        } else if id == 0x21 {
            Some(PropertyType::ReceiveMaximum)
        } else if id == 0x22 {
            Some(PropertyType::TopicAliasMaximum)
        } else if id == 0x23 {
            Some(PropertyType::TopicAlias)
        } else if id == 0x24 {
            Some(PropertyType::MaximumQoS)
        } else if id == 0x25 {
            Some(PropertyType::RetainAvailable)
        } else if id == 0x26 {
            Some(PropertyType::UserProp)
        } else if id == 0x27 {
            Some(PropertyType::MaximumPacketSize)
        } else if id == 0x28 {
            Some(PropertyType::WildcardSubscriptionAvailable)
        } else if id == 0x29 {
            Some(PropertyType::SubscriptionIdentifierAvailable)
        } else if id == 0x2A {
            Some(PropertyType::SharedSubscriptionAvailable)
        } else {
            None
        }
    }

    /// The form of the property's value.
    pub open spec fn spec_kind(self) -> ValueKind {
        match self {
            PropertyType::PayloadFormatIndicator => ValueKind::Byte,
            PropertyType::MessageExpiryInterval => ValueKind::FourByte,
            PropertyType::ContentType => ValueKind::Text,
            PropertyType::ResponseTopic => ValueKind::Text,
            PropertyType::CorrelationData => ValueKind::Binary,
            PropertyType::SubscriptionIdentifier => ValueKind::VarInt,
            PropertyType::SessionExpiryInterval => ValueKind::FourByte,
            PropertyType::AssignedClientIdentifier => ValueKind::Text,
            PropertyType::ServerKeepAlive => ValueKind::TwoByte,
            PropertyType::AuthenticationMethod => ValueKind::Text,
            PropertyType::AuthenticationData => ValueKind::Binary,
            PropertyType::RequestProblemInformation => ValueKind::Byte,
            PropertyType::WillDelayInterval => ValueKind::FourByte,
            PropertyType::RequestResponseInformation => ValueKind::Byte,
            PropertyType::ResponseInformation => ValueKind::Text,
            PropertyType::ServerReference => ValueKind::Text,
            PropertyType::ReasonString => ValueKind::Text,
            PropertyType::ReceiveMaximum => ValueKind::TwoByte,
            PropertyType::TopicAliasMaximum => ValueKind::TwoByte,
            PropertyType::TopicAlias => ValueKind::TwoByte,
            PropertyType::MaximumQoS => ValueKind::Byte,
            PropertyType::RetainAvailable => ValueKind::Byte,
            PropertyType::UserProp => ValueKind::TextPair,
            PropertyType::MaximumPacketSize => ValueKind::FourByte,
            PropertyType::WildcardSubscriptionAvailable => ValueKind::Byte,
            PropertyType::SubscriptionIdentifierAvailable => ValueKind::Byte,
            PropertyType::SharedSubscriptionAvailable => ValueKind::Byte,
        }
    }

    #[verifier::when_used_as_spec(spec_id)]
    pub fn id(self) -> (b: u8)
        ensures
            b == self.spec_id(),
            1 <= b < 128,
            Self::spec_from_id(b as u32) == Some(self),
    {
        match self {
            PropertyType::PayloadFormatIndicator => 0x01,
            PropertyType::MessageExpiryInterval => 0x02,
            PropertyType::ContentType => 0x03,
            PropertyType::ResponseTopic => 0x08,
            PropertyType::CorrelationData => 0x09,
            PropertyType::SubscriptionIdentifier => 0x0B,
            PropertyType::SessionExpiryInterval => 0x11,
            PropertyType::AssignedClientIdentifier => 0x12,
            PropertyType::ServerKeepAlive => 0x13,
            PropertyType::AuthenticationMethod => 0x15,
            PropertyType::AuthenticationData => 0x16,
            PropertyType::RequestProblemInformation => 0x17,
            PropertyType::WillDelayInterval => 0x18,
            PropertyType::RequestResponseInformation => 0x19,
            PropertyType::ResponseInformation => 0x1A,
            PropertyType::ServerReference => 0x1C,
            PropertyType::ReasonString => 0x1F,
            PropertyType::ReceiveMaximum => 0x21,
            PropertyType::TopicAliasMaximum => 0x22,
            PropertyType::TopicAlias => 0x23,
            PropertyType::MaximumQoS => 0x24,
            PropertyType::RetainAvailable => 0x25,
            PropertyType::UserProp => 0x26,
            PropertyType::MaximumPacketSize => 0x27,
            PropertyType::WildcardSubscriptionAvailable => 0x28,
            PropertyType::SubscriptionIdentifierAvailable => 0x29,
            PropertyType::SharedSubscriptionAvailable => 0x2A,
        }
    }

    pub fn from_id(id: u32) -> (res: Option<PropertyType>)
        ensures
            res == Self::spec_from_id(id),
    {
        match id {
            0x01 => Some(PropertyType::PayloadFormatIndicator),
            0x02 => Some(PropertyType::MessageExpiryInterval),
            0x03 => Some(PropertyType::ContentType),
            0x08 => Some(PropertyType::ResponseTopic),
            0x09 => Some(PropertyType::CorrelationData),
            0x0B => Some(PropertyType::SubscriptionIdentifier),
            0x11 => Some(PropertyType::SessionExpiryInterval),
            0x12 => Some(PropertyType::AssignedClientIdentifier),
            0x13 => Some(PropertyType::ServerKeepAlive),
            0x15 => Some(PropertyType::AuthenticationMethod),
            0x16 => Some(PropertyType::AuthenticationData),
            0x17 => Some(PropertyType::RequestProblemInformation),
            0x18 => Some(PropertyType::WillDelayInterval),
            0x19 => Some(PropertyType::RequestResponseInformation),
            0x1A => Some(PropertyType::ResponseInformation),
            0x1C => Some(PropertyType::ServerReference),
            0x1F => Some(PropertyType::ReasonString),
            0x21 => Some(PropertyType::ReceiveMaximum),
            0x22 => Some(PropertyType::TopicAliasMaximum),
            0x23 => Some(PropertyType::TopicAlias),
            0x24 => Some(PropertyType::MaximumQoS),
            0x25 => Some(PropertyType::RetainAvailable),
            0x26 => Some(PropertyType::UserProp),
            0x27 => Some(PropertyType::MaximumPacketSize),
            0x28 => Some(PropertyType::WildcardSubscriptionAvailable),
            0x29 => Some(PropertyType::SubscriptionIdentifierAvailable),
            0x2A => Some(PropertyType::SharedSubscriptionAvailable),
            _ => None,
        }
    }

    #[verifier::when_used_as_spec(spec_kind)]
    pub fn kind(self) -> (k: ValueKind)
        ensures
            k == self.spec_kind(),
    {
        match self {
            PropertyType::PayloadFormatIndicator => ValueKind::Byte,
            PropertyType::MessageExpiryInterval => ValueKind::FourByte,
            PropertyType::ContentType => ValueKind::Text,
            PropertyType::ResponseTopic => ValueKind::Text,
            PropertyType::CorrelationData => ValueKind::Binary,
            PropertyType::SubscriptionIdentifier => ValueKind::VarInt,
            PropertyType::SessionExpiryInterval => ValueKind::FourByte,
            PropertyType::AssignedClientIdentifier => ValueKind::Text,
            PropertyType::ServerKeepAlive => ValueKind::TwoByte,
            PropertyType::AuthenticationMethod => ValueKind::Text,
            PropertyType::AuthenticationData => ValueKind::Binary,
            PropertyType::RequestProblemInformation => ValueKind::Byte,
            PropertyType::WillDelayInterval => ValueKind::FourByte,
            PropertyType::RequestResponseInformation => ValueKind::Byte,
            PropertyType::ResponseInformation => ValueKind::Text,
            PropertyType::ServerReference => ValueKind::Text,
            PropertyType::ReasonString => ValueKind::Text,
            PropertyType::ReceiveMaximum => ValueKind::TwoByte,
            PropertyType::TopicAliasMaximum => ValueKind::TwoByte,
            PropertyType::TopicAlias => ValueKind::TwoByte,
            PropertyType::MaximumQoS => ValueKind::Byte,
            PropertyType::RetainAvailable => ValueKind::Byte,
            PropertyType::UserProp => ValueKind::TextPair,
            PropertyType::MaximumPacketSize => ValueKind::FourByte,
            PropertyType::WildcardSubscriptionAvailable => ValueKind::Byte,
            PropertyType::SubscriptionIdentifierAvailable => ValueKind::Byte,
            PropertyType::SharedSubscriptionAvailable => ValueKind::Byte,
        }
    }
}

/// The value of a property.
#[derive(Clone, Debug, PartialEq, Eq)]
pub enum PropValue {
    Byte(u8),
    TwoByte(u16),
    FourByte(u32),
    VarInt(u32),
    Text(String),
    Binary(Vec<u8>),
    TextPair(String, String),
}

/// The value of a property, with text as its bytes.
pub ghost enum PropValueView {
    Byte(u8),
    TwoByte(u16),
    FourByte(u32),
    VarInt(u32),
    Text(Seq<u8>),
    Binary(Seq<u8>),
    TextPair(Seq<u8>, Seq<u8>),
}

impl View for PropValue {
    type V = PropValueView;

    open spec fn view(&self) -> PropValueView {
        match self {
            PropValue::Byte(v) => PropValueView::Byte(*v),
            PropValue::TwoByte(v) => PropValueView::TwoByte(*v),
            PropValue::FourByte(v) => PropValueView::FourByte(*v),
            PropValue::VarInt(v) => PropValueView::VarInt(*v),
            PropValue::Text(v) => PropValueView::Text(str_bytes(v@)),
            PropValue::Binary(v) => PropValueView::Binary(v@),
            PropValue::TextPair(k, v) => PropValueView::TextPair(str_bytes(k@), str_bytes(v@)),
        }
    }
}

impl PropValueView {
    pub open spec fn kind(self) -> ValueKind {
        match self {
            PropValueView::Byte(_) => ValueKind::Byte,
            PropValueView::TwoByte(_) => ValueKind::TwoByte,
            PropValueView::FourByte(_) => ValueKind::FourByte,
            PropValueView::VarInt(_) => ValueKind::VarInt,
            PropValueView::Text(_) => ValueKind::Text,
            PropValueView::Binary(_) => ValueKind::Binary,
            PropValueView::TextPair(_, _) => ValueKind::TextPair,
        }
    }

    /// The value can be written: text and binary data are at most `FIELD_MAX`
    /// bytes long, a variable-byte integer is at most `VARU32_MAX`.
    pub open spec fn fits(self) -> bool {
        match self {
            PropValueView::VarInt(v) => v <= VARU32_MAX,
            PropValueView::Text(b) => b.len() <= FIELD_MAX,
            PropValueView::Binary(b) => b.len() <= FIELD_MAX,
            PropValueView::TextPair(k, v) => k.len() <= FIELD_MAX && v.len() <= FIELD_MAX,
            _ => true,
        }
    }

    /// Text in the value is well-formed UTF-8.
    pub open spec fn text_valid(self) -> bool {
        match self {
            PropValueView::Text(b) => valid_utf8(b),
            PropValueView::TextPair(k, v) => valid_utf8(k) && valid_utf8(v),
            _ => true,
        }
    }

    /// The bytes of the value.
    pub open spec fn enc(self) -> Seq<u8> {
        match self {
            PropValueView::Byte(v) => enc_u8(v),
            PropValueView::TwoByte(v) => enc_u16(v),
            PropValueView::FourByte(v) => enc_u32(v),
            PropValueView::VarInt(v) => enc_varu32(v),
            PropValueView::Text(b) => enc_bytes(b),
            PropValueView::Binary(b) => enc_bytes(b),
            PropValueView::TextPair(k, v) => enc_bytes(k) + enc_bytes(v),
        }
    }

    /// A value of the form `kind`, read at position `i`.
    pub open spec fn dec(kind: ValueKind, s: Seq<u8>, i: int) -> Result<(PropValueView, int), Error> {
        match kind {
            ValueKind::Byte => match dec_u8(s, i) {
                Ok((v, j)) => Ok((PropValueView::Byte(v), j)),
                Err(e) => Err(e),
            },
            ValueKind::TwoByte => match dec_u16(s, i) {
                Ok((v, j)) => Ok((PropValueView::TwoByte(v), j)),
                Err(e) => Err(e),
            },
            ValueKind::FourByte => match dec_u32(s, i) {
                Ok((v, j)) => Ok((PropValueView::FourByte(v), j)),
                Err(e) => Err(e),
            },
            ValueKind::VarInt => match dec_varu32(s, i) {
                Ok((v, j)) => Ok((PropValueView::VarInt(v), j)),
                Err(e) => Err(e),
            },
            ValueKind::Text => match dec_string(s, i) {
                Ok((v, j)) => Ok((PropValueView::Text(v), j)),
                Err(e) => Err(e),
            },
            ValueKind::Binary => match dec_bytes(s, i) {
                Ok((v, j)) => Ok((PropValueView::Binary(v), j)),
                Err(e) => Err(e),
            },
            ValueKind::TextPair => match dec_string(s, i) {
                Err(e) => Err(e),
                Ok((k, j)) => match dec_string(s, j) {
                    Ok((v, n)) => Ok((PropValueView::TextPair(k, v), n)),
                    Err(e) => Err(e),
                },
            },
        }
    }
}

/// One property: which one, and its value.
#[derive(Clone, Debug, PartialEq, Eq)]
pub struct Property {
    pub typ: PropertyType,
    pub value: PropValue,
}

/// One property, with text as its bytes.
pub ghost struct PropertyView {
    pub typ: PropertyType,
    pub value: PropValueView,
}

impl View for Property {
    type V = PropertyView;

    open spec fn view(&self) -> PropertyView {
        PropertyView { typ: self.typ, value: self.value@ }
    }
}

impl PropertyView {
    /// The value has the form that the property demands, can be written, and its
    /// text is UTF-8.
    pub open spec fn wf(self) -> bool {
        &&& self.value.kind() == self.typ.spec_kind()
        &&& self.value.fits()
        &&& self.value.text_valid()
    }

    /// The rules on single values: a receive maximum, a maximum packet size, a
    /// topic alias and a subscription identifier are not 0; the two request flags are 0 or 1;
    /// a payload format is one of the two that exist.
    pub open spec fn value_ok(self) -> Result<(), Error> {
        match (self.typ, self.value) {
            (PropertyType::ReceiveMaximum, PropValueView::TwoByte(v)) => if v == 0 {
                Err(protocol_error())
            } else {
                Ok(())
            },
            (PropertyType::MaximumPacketSize, PropValueView::FourByte(v)) => if v == 0 {
                Err(protocol_error())
            } else {
                Ok(())
            },
            (PropertyType::SubscriptionIdentifier, PropValueView::VarInt(v)) => if v == 0 {
                Err(protocol_error())
            } else {
                Ok(())
            },
            (PropertyType::TopicAlias, PropValueView::TwoByte(v)) => if v == 0 {
                Err(protocol_error())
            } else {
                Ok(())
            },
            (PropertyType::RequestResponseInformation, PropValueView::Byte(v)) => if v > 1 {
                Err(protocol_error())
            } else {
                Ok(())
            },
            (PropertyType::RequestProblemInformation, PropValueView::Byte(v)) => if v > 1 {
                Err(protocol_error())
            } else {
                Ok(())
            },
            (PropertyType::MaximumQoS, PropValueView::Byte(v)) => if v > 1 {
                Err(protocol_error())
            } else {
                Ok(())
            },
            (PropertyType::RetainAvailable, PropValueView::Byte(v)) => if v > 1 {
                Err(protocol_error())
            } else {
                Ok(())
            },
            (PropertyType::WildcardSubscriptionAvailable, PropValueView::Byte(v)) => if v > 1 {
                Err(protocol_error())
            } else {
                Ok(())
            },
            (PropertyType::SubscriptionIdentifierAvailable, PropValueView::Byte(v)) => if v > 1 {
                Err(protocol_error())
            } else {
                Ok(())
            },
            (PropertyType::SharedSubscriptionAvailable, PropValueView::Byte(v)) => if v > 1 {
                Err(protocol_error())
            } else {
                Ok(())
            },
            (PropertyType::PayloadFormatIndicator, PropValueView::Byte(v)) => if v > 1 {
                Err(malformed())
            } else {
                Ok(())
            },
            _ => Ok(()),
        }
    }

    /// The bytes of the property: its identifier, then its value.
    pub open spec fn enc(self) -> Seq<u8> {
        enc_u8(self.typ.spec_id()) + self.value.enc()
    }

    /// A property read at position `i`: an identifier, which is a variable-byte
    /// integer that names a property, and a value of the form that goes with
    /// it.
    #[verifier::opaque]
    pub open spec fn dec(s: Seq<u8>, i: int) -> Result<(PropertyView, int), Error> {
        match dec_varu32(s, i) {
            Err(e) => Err(e),
            Ok((id, j)) => match PropertyType::spec_from_id(id) {
                None => Err(malformed()),
                Some(t) => match PropValueView::dec(t.spec_kind(), s, j) {
                    Err(e) => Err(e),
                    Ok((v, n)) => Ok((PropertyView { typ: t, value: v }, n)),
                },
            },
        }
    }
}

/// The bytes of a property that may be absent.
pub open spec fn enc_opt(p: Option<PropertyView>) -> Seq<u8> {
    match p {
        Some(p) => p.enc(),
        None => Seq::empty(),
    }
}

/// The user properties as properties, one behind the other.
pub open spec fn enc_users(us: Seq<(Seq<u8>, Seq<u8>)>) -> Seq<u8>
    decreases us.len(),
{
    if us.len() == 0 {
        Seq::empty()
    } else {
        enc_users(us.drop_last()) + user_prop(us.last()).enc()
    }
}

/// A user property as a property.
pub open spec fn user_prop(u: (Seq<u8>, Seq<u8>)) -> PropertyView {
    PropertyView { typ: PropertyType::UserProp, value: PropValueView::TextPair(u.0, u.1) }
}

/// Every user property can be written and is UTF-8.
pub open spec fn users_wf(us: Seq<(Seq<u8>, Seq<u8>)>) -> bool {
    forall|k: int| 0 <= k < us.len() ==> (#[trigger] user_prop(us[k])).wf()
}

pub open spec fn prop_u8(t: PropertyType, v: Option<u8>) -> Option<PropertyView> {
    match v {
        Some(v) => Some(PropertyView { typ: t, value: PropValueView::Byte(v) }),
        None => None,
    }
}

pub open spec fn prop_u16(t: PropertyType, v: Option<u16>) -> Option<PropertyView> {
    match v {
        Some(v) => Some(PropertyView { typ: t, value: PropValueView::TwoByte(v) }),
        None => None,
    }
}

pub open spec fn prop_u32(t: PropertyType, v: Option<u32>) -> Option<PropertyView> {
    match v {
        Some(v) => Some(PropertyView { typ: t, value: PropValueView::FourByte(v) }),
        None => None,
    }
}

pub open spec fn prop_varint(t: PropertyType, v: Option<u32>) -> Option<PropertyView> {
    match v {
        Some(v) => Some(PropertyView { typ: t, value: PropValueView::VarInt(v) }),
        None => None,
    }
}

pub open spec fn prop_text(t: PropertyType, v: Option<Seq<u8>>) -> Option<PropertyView> {
    match v {
        Some(v) => Some(PropertyView { typ: t, value: PropValueView::Text(v) }),
        None => None,
    }
}

pub open spec fn prop_binary(t: PropertyType, v: Option<Seq<u8>>) -> Option<PropertyView> {
    match v {
        Some(v) => Some(PropertyView { typ: t, value: PropValueView::Binary(v) }),
        None => None,
    }
}

/// The packets, or parts of packets, whose properties sections this crate
/// reads.
#[derive(Clone, Copy, Debug, PartialEq, Eq, Structural)]
pub enum PropCtx {
    /// The variable header of a CONNECT.
    Connect,
    /// The will of a CONNECT.
    Will,
    /// A SUBSCRIBE.
    Subscribe,
    /// A PUBACK, PUBREC, PUBREL or PUBCOMP.
    PubAck,
    /// A PUBLISH.
    Publish,
    /// A CONNACK.
    ConnAck,
    /// An UNSUBSCRIBE.
    UnSubscribe,
    /// A DISCONNECT.
    Disconnect,
    /// An AUTH.
    Auth,
}

/// The properties that may stand in a section of `ctx`.
pub open spec fn allowed(ctx: PropCtx, t: PropertyType) -> bool {
    match ctx {
        PropCtx::Connect => t == PropertyType::SessionExpiryInterval || t == PropertyType::ReceiveMaximum || t == PropertyType::MaximumPacketSize || t == PropertyType::TopicAliasMaximum || t == PropertyType::RequestResponseInformation || t == PropertyType::RequestProblemInformation || t == PropertyType::AuthenticationMethod || t == PropertyType::AuthenticationData || t == PropertyType::UserProp,
        PropCtx::Will => t == PropertyType::WillDelayInterval || t == PropertyType::PayloadFormatIndicator || t == PropertyType::MessageExpiryInterval || t == PropertyType::ContentType || t == PropertyType::ResponseTopic || t == PropertyType::CorrelationData || t == PropertyType::UserProp,
        PropCtx::Subscribe => t == PropertyType::SubscriptionIdentifier || t == PropertyType::UserProp,
        PropCtx::PubAck => t == PropertyType::ReasonString || t == PropertyType::UserProp,
        PropCtx::Publish => t == PropertyType::TopicAlias || t == PropertyType::PayloadFormatIndicator || t == PropertyType::MessageExpiryInterval || t == PropertyType::ResponseTopic || t == PropertyType::CorrelationData || t == PropertyType::SubscriptionIdentifier || t == PropertyType::ContentType || t == PropertyType::UserProp,
        PropCtx::ConnAck => t == PropertyType::MaximumQoS || t == PropertyType::RetainAvailable || t == PropertyType::AssignedClientIdentifier || t == PropertyType::WildcardSubscriptionAvailable || t == PropertyType::SubscriptionIdentifierAvailable || t == PropertyType::SharedSubscriptionAvailable || t == PropertyType::ServerKeepAlive || t == PropertyType::ResponseInformation || t == PropertyType::ServerReference || t == PropertyType::SessionExpiryInterval || t == PropertyType::ReceiveMaximum || t == PropertyType::MaximumPacketSize || t == PropertyType::TopicAliasMaximum || t == PropertyType::ReasonString || t == PropertyType::AuthenticationMethod || t == PropertyType::AuthenticationData || t == PropertyType::UserProp,
        PropCtx::UnSubscribe => t == PropertyType::UserProp,
        PropCtx::Disconnect => t == PropertyType::SessionExpiryInterval || t == PropertyType::ReasonString || t == PropertyType::ServerReference || t == PropertyType::UserProp,
        PropCtx::Auth => t == PropertyType::AuthenticationMethod || t == PropertyType::AuthenticationData || t == PropertyType::ReasonString || t == PropertyType::UserProp,
    }
}

pub fn is_allowed(ctx: PropCtx, t: PropertyType) -> (b: bool)
    ensures
        b == allowed(ctx, t),
{
    match ctx {
        PropCtx::Connect => t == PropertyType::SessionExpiryInterval || t == PropertyType::ReceiveMaximum || t == PropertyType::MaximumPacketSize || t == PropertyType::TopicAliasMaximum || t == PropertyType::RequestResponseInformation || t == PropertyType::RequestProblemInformation || t == PropertyType::AuthenticationMethod || t == PropertyType::AuthenticationData || t == PropertyType::UserProp,
        PropCtx::Will => t == PropertyType::WillDelayInterval || t == PropertyType::PayloadFormatIndicator || t == PropertyType::MessageExpiryInterval || t == PropertyType::ContentType || t == PropertyType::ResponseTopic || t == PropertyType::CorrelationData || t == PropertyType::UserProp,
        PropCtx::Subscribe => t == PropertyType::SubscriptionIdentifier || t == PropertyType::UserProp,
        PropCtx::PubAck => t == PropertyType::ReasonString || t == PropertyType::UserProp,
        PropCtx::Publish => t == PropertyType::TopicAlias || t == PropertyType::PayloadFormatIndicator || t == PropertyType::MessageExpiryInterval || t == PropertyType::ResponseTopic || t == PropertyType::CorrelationData || t == PropertyType::SubscriptionIdentifier || t == PropertyType::ContentType || t == PropertyType::UserProp,
        PropCtx::ConnAck => t == PropertyType::MaximumQoS || t == PropertyType::RetainAvailable || t == PropertyType::AssignedClientIdentifier || t == PropertyType::WildcardSubscriptionAvailable || t == PropertyType::SubscriptionIdentifierAvailable || t == PropertyType::SharedSubscriptionAvailable || t == PropertyType::ServerKeepAlive || t == PropertyType::ResponseInformation || t == PropertyType::ServerReference || t == PropertyType::SessionExpiryInterval || t == PropertyType::ReceiveMaximum || t == PropertyType::MaximumPacketSize || t == PropertyType::TopicAliasMaximum || t == PropertyType::ReasonString || t == PropertyType::AuthenticationMethod || t == PropertyType::AuthenticationData || t == PropertyType::UserProp,
        PropCtx::UnSubscribe => t == PropertyType::UserProp,
        PropCtx::Disconnect => t == PropertyType::SessionExpiryInterval || t == PropertyType::ReasonString || t == PropertyType::ServerReference || t == PropertyType::UserProp,
        PropCtx::Auth => t == PropertyType::AuthenticationMethod || t == PropertyType::AuthenticationData || t == PropertyType::ReasonString || t == PropertyType::UserProp,
    }
}

/// What a properties section held.
#[derive(Clone, Debug, PartialEq, Eq)]
pub struct PropBag {
    pub session_expiry_interval: Option<u32>,
    pub receive_maximum: Option<u16>,
    pub max_packet_size: Option<u32>,
    pub topic_alias_max: Option<u16>,
    pub request_response_info: Option<u8>,
    pub request_problem_info: Option<u8>,
    pub authentication_method: Option<String>,
    pub authentication_data: Option<Vec<u8>>,
    pub will_delay_interval: Option<u32>,
    pub payload_format_indicator: Option<u8>,
    pub message_expiry_interval: Option<u32>,
    pub content_type: Option<String>,
    pub response_topic: Option<String>,
    pub correlation_data: Option<Vec<u8>>,
    pub subscription_id: Option<u32>,
    pub reason_string: Option<String>,
    pub topic_alias: Option<u16>,
    pub maximum_qos: Option<u8>,
    pub retain_available: Option<u8>,
    pub assigned_client_identifier: Option<String>,
    pub wildcard_subscription_available: Option<u8>,
    pub subscription_identifiers_available: Option<u8>,
    pub shared_subscription_available: Option<u8>,
    pub server_keep_alive: Option<u16>,
    pub response_information: Option<String>,
    pub server_reference: Option<String>,
    pub user_properties: Vec<UserProperty>,
}

/// What a properties section held, with text as its bytes.
pub ghost struct PropsView {
    pub session_expiry_interval: Option<u32>,
    pub receive_maximum: Option<u16>,
    pub max_packet_size: Option<u32>,
    pub topic_alias_max: Option<u16>,
    pub request_response_info: Option<u8>,
    pub request_problem_info: Option<u8>,
    pub authentication_method: Option<Seq<u8>>,
    pub authentication_data: Option<Seq<u8>>,
    pub will_delay_interval: Option<u32>,
    pub payload_format_indicator: Option<u8>,
    pub message_expiry_interval: Option<u32>,
    pub content_type: Option<Seq<u8>>,
    pub response_topic: Option<Seq<u8>>,
    pub correlation_data: Option<Seq<u8>>,
    pub subscription_id: Option<u32>,
    pub reason_string: Option<Seq<u8>>,
    pub topic_alias: Option<u16>,
    pub maximum_qos: Option<u8>,
    pub retain_available: Option<u8>,
    pub assigned_client_identifier: Option<Seq<u8>>,
    pub wildcard_subscription_available: Option<u8>,
    pub subscription_identifiers_available: Option<u8>,
    pub shared_subscription_available: Option<u8>,
    pub server_keep_alive: Option<u16>,
    pub response_information: Option<Seq<u8>>,
    pub server_reference: Option<Seq<u8>>,
    pub user_properties: Seq<(Seq<u8>, Seq<u8>)>,
}

impl View for PropBag {
    type V = PropsView;

    open spec fn view(&self) -> PropsView {
        PropsView {
            session_expiry_interval: self.session_expiry_interval,
            receive_maximum: self.receive_maximum,
            max_packet_size: self.max_packet_size,
            topic_alias_max: self.topic_alias_max,
            request_response_info: self.request_response_info,
            request_problem_info: self.request_problem_info,
            authentication_method: opt_str_view(self.authentication_method),
            authentication_data: opt_bin_view(self.authentication_data),
            will_delay_interval: self.will_delay_interval,
            payload_format_indicator: self.payload_format_indicator,
            message_expiry_interval: self.message_expiry_interval,
            content_type: opt_str_view(self.content_type),
            response_topic: opt_str_view(self.response_topic),
            correlation_data: opt_bin_view(self.correlation_data),
            subscription_id: self.subscription_id,
            reason_string: opt_str_view(self.reason_string),
            topic_alias: self.topic_alias,
            maximum_qos: self.maximum_qos,
            retain_available: self.retain_available,
            assigned_client_identifier: opt_str_view(self.assigned_client_identifier),
            wildcard_subscription_available: self.wildcard_subscription_available,
            subscription_identifiers_available: self.subscription_identifiers_available,
            shared_subscription_available: self.shared_subscription_available,
            server_keep_alive: self.server_keep_alive,
            response_information: opt_str_view(self.response_information),
            server_reference: opt_str_view(self.server_reference),
            user_properties: user_props_view(self.user_properties@),
        }
    }
}

impl PropsView {
    /// The section that holds nothing.
    pub open spec fn empty() -> PropsView {
        PropsView {
            session_expiry_interval: None,
            receive_maximum: None,
            max_packet_size: None,
            topic_alias_max: None,
            request_response_info: None,
            request_problem_info: None,
            authentication_method: None,
            authentication_data: None,
            will_delay_interval: None,
            payload_format_indicator: None,
            message_expiry_interval: None,
            content_type: None,
            response_topic: None,
            correlation_data: None,
            subscription_id: None,
            reason_string: None,
            topic_alias: None,
            maximum_qos: None,
            retain_available: None,
            assigned_client_identifier: None,
            wildcard_subscription_available: None,
            subscription_identifiers_available: None,
            shared_subscription_available: None,
            server_keep_alive: None,
            response_information: None,
            server_reference: None,
            user_properties: Seq::empty(),
        }
    }

    /// The property `t` is held. A user property is never "held": any number of
    /// them may be.
    pub open spec fn has(self, t: PropertyType) -> bool {
        match t {
            PropertyType::SessionExpiryInterval => self.session_expiry_interval is Some,
            PropertyType::ReceiveMaximum => self.receive_maximum is Some,
            PropertyType::MaximumPacketSize => self.max_packet_size is Some,
            PropertyType::TopicAliasMaximum => self.topic_alias_max is Some,
            PropertyType::RequestResponseInformation => self.request_response_info is Some,
            PropertyType::RequestProblemInformation => self.request_problem_info is Some,
            PropertyType::AuthenticationMethod => self.authentication_method is Some,
            PropertyType::AuthenticationData => self.authentication_data is Some,
            PropertyType::WillDelayInterval => self.will_delay_interval is Some,
            PropertyType::PayloadFormatIndicator => self.payload_format_indicator is Some,
            PropertyType::MessageExpiryInterval => self.message_expiry_interval is Some,
            PropertyType::ContentType => self.content_type is Some,
            PropertyType::ResponseTopic => self.response_topic is Some,
            PropertyType::CorrelationData => self.correlation_data is Some,
            PropertyType::SubscriptionIdentifier => self.subscription_id is Some,
            PropertyType::ReasonString => self.reason_string is Some,
            PropertyType::TopicAlias => self.topic_alias is Some,
            PropertyType::MaximumQoS => self.maximum_qos is Some,
            PropertyType::RetainAvailable => self.retain_available is Some,
            PropertyType::AssignedClientIdentifier => self.assigned_client_identifier is Some,
            PropertyType::WildcardSubscriptionAvailable => self.wildcard_subscription_available is Some,
            PropertyType::SubscriptionIdentifierAvailable => self.subscription_identifiers_available is Some,
            PropertyType::SharedSubscriptionAvailable => self.shared_subscription_available is Some,
            PropertyType::ServerKeepAlive => self.server_keep_alive is Some,
            PropertyType::ResponseInformation => self.response_information is Some,
            PropertyType::ServerReference => self.server_reference is Some,
            _ => false,
        }
    }

    /// The property `t` as it is held.
    pub open spec fn get(self, t: PropertyType) -> Option<PropertyView> {
        match t {
            PropertyType::SessionExpiryInterval => match self.session_expiry_interval {
                Some(v) => Some(PropertyView { typ: t, value: PropValueView::FourByte(v) }),
                None => None,
            },
            PropertyType::ReceiveMaximum => match self.receive_maximum {
                Some(v) => Some(PropertyView { typ: t, value: PropValueView::TwoByte(v) }),
                None => None,
            },
            PropertyType::MaximumPacketSize => match self.max_packet_size {
                Some(v) => Some(PropertyView { typ: t, value: PropValueView::FourByte(v) }),
                None => None,
            },
            PropertyType::TopicAliasMaximum => match self.topic_alias_max {
                Some(v) => Some(PropertyView { typ: t, value: PropValueView::TwoByte(v) }),
                None => None,
            },
            PropertyType::RequestResponseInformation => match self.request_response_info {
                Some(v) => Some(PropertyView { typ: t, value: PropValueView::Byte(v) }),
                None => None,
            },
            PropertyType::RequestProblemInformation => match self.request_problem_info {
                Some(v) => Some(PropertyView { typ: t, value: PropValueView::Byte(v) }),
                None => None,
            },
            PropertyType::AuthenticationMethod => match self.authentication_method {
                Some(v) => Some(PropertyView { typ: t, value: PropValueView::Text(v) }),
                None => None,
            },
            PropertyType::AuthenticationData => match self.authentication_data {
                Some(v) => Some(PropertyView { typ: t, value: PropValueView::Binary(v) }),
                None => None,
            },
            PropertyType::WillDelayInterval => match self.will_delay_interval {
                Some(v) => Some(PropertyView { typ: t, value: PropValueView::FourByte(v) }),
                None => None,
            },
            PropertyType::PayloadFormatIndicator => match self.payload_format_indicator {
                Some(v) => Some(PropertyView { typ: t, value: PropValueView::Byte(v) }),
                None => None,
            },
            PropertyType::MessageExpiryInterval => match self.message_expiry_interval {
                Some(v) => Some(PropertyView { typ: t, value: PropValueView::FourByte(v) }),
                None => None,
            },
            PropertyType::ContentType => match self.content_type {
                Some(v) => Some(PropertyView { typ: t, value: PropValueView::Text(v) }),
                None => None,
            },
            PropertyType::ResponseTopic => match self.response_topic {
                Some(v) => Some(PropertyView { typ: t, value: PropValueView::Text(v) }),
                None => None,
            },
            PropertyType::CorrelationData => match self.correlation_data {
                Some(v) => Some(PropertyView { typ: t, value: PropValueView::Binary(v) }),
                None => None,
            },
            PropertyType::SubscriptionIdentifier => match self.subscription_id {
                Some(v) => Some(PropertyView { typ: t, value: PropValueView::VarInt(v) }),
                None => None,
            },
            PropertyType::ReasonString => match self.reason_string {
                Some(v) => Some(PropertyView { typ: t, value: PropValueView::Text(v) }),
                None => None,
            },
            PropertyType::TopicAlias => match self.topic_alias {
                Some(v) => Some(PropertyView { typ: t, value: PropValueView::TwoByte(v) }),
                None => None,
            },
            PropertyType::MaximumQoS => match self.maximum_qos {
                Some(v) => Some(PropertyView { typ: t, value: PropValueView::Byte(v) }),
                None => None,
            },
            PropertyType::RetainAvailable => match self.retain_available {
                Some(v) => Some(PropertyView { typ: t, value: PropValueView::Byte(v) }),
                None => None,
            },
            PropertyType::AssignedClientIdentifier => match self.assigned_client_identifier {
                Some(v) => Some(PropertyView { typ: t, value: PropValueView::Text(v) }),
                None => None,
            },
            PropertyType::WildcardSubscriptionAvailable => match self.wildcard_subscription_available {
                Some(v) => Some(PropertyView { typ: t, value: PropValueView::Byte(v) }),
                None => None,
            },
            PropertyType::SubscriptionIdentifierAvailable => match self.subscription_identifiers_available {
                Some(v) => Some(PropertyView { typ: t, value: PropValueView::Byte(v) }),
                None => None,
            },
            PropertyType::SharedSubscriptionAvailable => match self.shared_subscription_available {
                Some(v) => Some(PropertyView { typ: t, value: PropValueView::Byte(v) }),
                None => None,
            },
            PropertyType::ServerKeepAlive => match self.server_keep_alive {
                Some(v) => Some(PropertyView { typ: t, value: PropValueView::TwoByte(v) }),
                None => None,
            },
            PropertyType::ResponseInformation => match self.response_information {
                Some(v) => Some(PropertyView { typ: t, value: PropValueView::Text(v) }),
                None => None,
            },
            PropertyType::ServerReference => match self.server_reference {
                Some(v) => Some(PropertyView { typ: t, value: PropValueView::Text(v) }),
                None => None,
            },
            _ => None,
        }
    }

    /// The section with `p` added; for a property that no section of this crate
    /// keeps, the section itself.
    pub open spec fn put(self, p: PropertyView) -> PropsView {
        match (p.typ, p.value) {
            (PropertyType::UserProp, PropValueView::TextPair(k, v)) => PropsView {
                user_properties: self.user_properties.push((k, v)),
                ..self
            },
            (PropertyType::SessionExpiryInterval, PropValueView::FourByte(v)) => PropsView { session_expiry_interval: Some(v), ..self },
            (PropertyType::ReceiveMaximum, PropValueView::TwoByte(v)) => PropsView { receive_maximum: Some(v), ..self },
            (PropertyType::MaximumPacketSize, PropValueView::FourByte(v)) => PropsView { max_packet_size: Some(v), ..self },
            (PropertyType::TopicAliasMaximum, PropValueView::TwoByte(v)) => PropsView { topic_alias_max: Some(v), ..self },
            (PropertyType::RequestResponseInformation, PropValueView::Byte(v)) => PropsView { request_response_info: Some(v), ..self },
            (PropertyType::RequestProblemInformation, PropValueView::Byte(v)) => PropsView { request_problem_info: Some(v), ..self },
            (PropertyType::AuthenticationMethod, PropValueView::Text(v)) => PropsView { authentication_method: Some(v), ..self },
            (PropertyType::AuthenticationData, PropValueView::Binary(v)) => PropsView { authentication_data: Some(v), ..self },
            (PropertyType::WillDelayInterval, PropValueView::FourByte(v)) => PropsView { will_delay_interval: Some(v), ..self },
            (PropertyType::PayloadFormatIndicator, PropValueView::Byte(v)) => PropsView { payload_format_indicator: Some(v), ..self },
            (PropertyType::MessageExpiryInterval, PropValueView::FourByte(v)) => PropsView { message_expiry_interval: Some(v), ..self },
            (PropertyType::ContentType, PropValueView::Text(v)) => PropsView { content_type: Some(v), ..self },
            (PropertyType::ResponseTopic, PropValueView::Text(v)) => PropsView { response_topic: Some(v), ..self },
            (PropertyType::CorrelationData, PropValueView::Binary(v)) => PropsView { correlation_data: Some(v), ..self },
            (PropertyType::SubscriptionIdentifier, PropValueView::VarInt(v)) => PropsView { subscription_id: Some(v), ..self },
            (PropertyType::ReasonString, PropValueView::Text(v)) => PropsView { reason_string: Some(v), ..self },
            (PropertyType::TopicAlias, PropValueView::TwoByte(v)) => PropsView { topic_alias: Some(v), ..self },
            (PropertyType::MaximumQoS, PropValueView::Byte(v)) => PropsView { maximum_qos: Some(v), ..self },
            (PropertyType::RetainAvailable, PropValueView::Byte(v)) => PropsView { retain_available: Some(v), ..self },
            (PropertyType::AssignedClientIdentifier, PropValueView::Text(v)) => PropsView { assigned_client_identifier: Some(v), ..self },
            (PropertyType::WildcardSubscriptionAvailable, PropValueView::Byte(v)) => PropsView { wildcard_subscription_available: Some(v), ..self },
            (PropertyType::SubscriptionIdentifierAvailable, PropValueView::Byte(v)) => PropsView { subscription_identifiers_available: Some(v), ..self },
            (PropertyType::SharedSubscriptionAvailable, PropValueView::Byte(v)) => PropsView { shared_subscription_available: Some(v), ..self },
            (PropertyType::ServerKeepAlive, PropValueView::TwoByte(v)) => PropsView { server_keep_alive: Some(v), ..self },
            (PropertyType::ResponseInformation, PropValueView::Text(v)) => PropsView { response_information: Some(v), ..self },
            (PropertyType::ServerReference, PropValueView::Text(v)) => PropsView { server_reference: Some(v), ..self },
            _ => self,
        }
    }

    /// What becomes of the section when `p` is read in a section of `ctx`:
    /// a property that `ctx` does not allow, one that is held already, and one
    /// whose value breaks a rule are refused.
    #[verifier::opaque]
    pub open spec fn accept(self, ctx: PropCtx, p: PropertyView) -> Result<PropsView, Error> {
        if !allowed(ctx, p.typ) {
            Err(protocol_error())
        } else if p.value.kind() != p.typ.spec_kind() {
            Err(malformed())
        } else if self.has(p.typ) {
            Err(protocol_error())
        } else {
            match p.value_ok() {
                Err(e) => Err(e),
                Ok(()) => Ok(self.put(p)),
            }
        }
    }

    /// Everything held may stand in a section of `ctx`, keeps the rules on
    /// single values, can be written, and is UTF-8 where it is text.
    pub open spec fn valid_for(self, ctx: PropCtx) -> bool {
        &&& (self.session_expiry_interval matches Some(x) ==> allowed(ctx, PropertyType::SessionExpiryInterval))
        &&& (self.receive_maximum matches Some(x) ==> allowed(ctx, PropertyType::ReceiveMaximum) && x != 0)
        &&& (self.max_packet_size matches Some(x) ==> allowed(ctx, PropertyType::MaximumPacketSize) && x != 0)
        &&& (self.topic_alias_max matches Some(x) ==> allowed(ctx, PropertyType::TopicAliasMaximum))
        &&& (self.request_response_info matches Some(x) ==> allowed(ctx, PropertyType::RequestResponseInformation) && x <= 1)
        &&& (self.request_problem_info matches Some(x) ==> allowed(ctx, PropertyType::RequestProblemInformation) && x <= 1)
        &&& (self.authentication_method matches Some(x) ==> allowed(ctx, PropertyType::AuthenticationMethod) && x.len() <= FIELD_MAX && valid_utf8(x))
        &&& (self.authentication_data matches Some(x) ==> allowed(ctx, PropertyType::AuthenticationData) && x.len() <= FIELD_MAX)
        &&& (self.will_delay_interval matches Some(x) ==> allowed(ctx, PropertyType::WillDelayInterval))
        &&& (self.payload_format_indicator matches Some(x) ==> allowed(ctx, PropertyType::PayloadFormatIndicator) && x <= 1)
        &&& (self.message_expiry_interval matches Some(x) ==> allowed(ctx, PropertyType::MessageExpiryInterval))
        &&& (self.content_type matches Some(x) ==> allowed(ctx, PropertyType::ContentType) && x.len() <= FIELD_MAX && valid_utf8(x))
        &&& (self.response_topic matches Some(x) ==> allowed(ctx, PropertyType::ResponseTopic) && x.len() <= FIELD_MAX && valid_utf8(x))
        &&& (self.correlation_data matches Some(x) ==> allowed(ctx, PropertyType::CorrelationData) && x.len() <= FIELD_MAX)
        &&& (self.subscription_id matches Some(x) ==> allowed(ctx, PropertyType::SubscriptionIdentifier) && x != 0 && x <= VARU32_MAX)
        &&& (self.reason_string matches Some(x) ==> allowed(ctx, PropertyType::ReasonString) && x.len() <= FIELD_MAX && valid_utf8(x))
        &&& (self.topic_alias matches Some(x) ==> allowed(ctx, PropertyType::TopicAlias) && x != 0)
        &&& (self.maximum_qos matches Some(x) ==> allowed(ctx, PropertyType::MaximumQoS) && x <= 1)
        &&& (self.retain_available matches Some(x) ==> allowed(ctx, PropertyType::RetainAvailable) && x <= 1)
        &&& (self.assigned_client_identifier matches Some(x) ==> allowed(ctx, PropertyType::AssignedClientIdentifier) && x.len() <= FIELD_MAX && valid_utf8(x))
        &&& (self.wildcard_subscription_available matches Some(x) ==> allowed(ctx, PropertyType::WildcardSubscriptionAvailable) && x <= 1)
        &&& (self.subscription_identifiers_available matches Some(x) ==> allowed(ctx, PropertyType::SubscriptionIdentifierAvailable) && x <= 1)
        &&& (self.shared_subscription_available matches Some(x) ==> allowed(ctx, PropertyType::SharedSubscriptionAvailable) && x <= 1)
        &&& (self.server_keep_alive matches Some(x) ==> allowed(ctx, PropertyType::ServerKeepAlive))
        &&& (self.response_information matches Some(x) ==> allowed(ctx, PropertyType::ResponseInformation) && x.len() <= FIELD_MAX && valid_utf8(x))
        &&& (self.server_reference matches Some(x) ==> allowed(ctx, PropertyType::ServerReference) && x.len() <= FIELD_MAX && valid_utf8(x))
        &&& users_wf(self.user_properties)
    }

    /// Nothing is held.
    pub open spec fn is_empty(self) -> bool {
        &&& self.session_expiry_interval is None
        &&& self.receive_maximum is None
        &&& self.max_packet_size is None
        &&& self.topic_alias_max is None
        &&& self.request_response_info is None
        &&& self.request_problem_info is None
        &&& self.authentication_method is None
        &&& self.authentication_data is None
        &&& self.will_delay_interval is None
        &&& self.payload_format_indicator is None
        &&& self.message_expiry_interval is None
        &&& self.content_type is None
        &&& self.response_topic is None
        &&& self.correlation_data is None
        &&& self.subscription_id is None
        &&& self.reason_string is None
        &&& self.topic_alias is None
        &&& self.maximum_qos is None
        &&& self.retain_available is None
        &&& self.assigned_client_identifier is None
        &&& self.wildcard_subscription_available is None
        &&& self.subscription_identifiers_available is None
        &&& self.shared_subscription_available is None
        &&& self.server_keep_alive is None
        &&& self.response_information is None
        &&& self.server_reference is None
        &&& self.user_properties.len() == 0
    }

    /// The number of bytes that the properties held take when each is written
    /// in its shortest form.
    pub open spec fn size(self) -> int {
        (enc_opt(prop_u32(PropertyType::SessionExpiryInterval, self.session_expiry_interval)).len() + enc_opt(prop_u16(PropertyType::ReceiveMaximum, self.receive_maximum)).len() + enc_opt(prop_u32(PropertyType::MaximumPacketSize, self.max_packet_size)).len() + enc_opt(prop_u16(PropertyType::TopicAliasMaximum, self.topic_alias_max)).len() + enc_opt(prop_u8(PropertyType::RequestResponseInformation, self.request_response_info)).len() + enc_opt(prop_u8(PropertyType::RequestProblemInformation, self.request_problem_info)).len() + enc_opt(prop_text(PropertyType::AuthenticationMethod, self.authentication_method)).len() + enc_opt(prop_binary(PropertyType::AuthenticationData, self.authentication_data)).len() + enc_opt(prop_u32(PropertyType::WillDelayInterval, self.will_delay_interval)).len() + enc_opt(prop_u8(PropertyType::PayloadFormatIndicator, self.payload_format_indicator)).len() + enc_opt(prop_u32(PropertyType::MessageExpiryInterval, self.message_expiry_interval)).len() + enc_opt(prop_text(PropertyType::ContentType, self.content_type)).len() + enc_opt(prop_text(PropertyType::ResponseTopic, self.response_topic)).len() + enc_opt(prop_binary(PropertyType::CorrelationData, self.correlation_data)).len() + enc_opt(prop_varint(PropertyType::SubscriptionIdentifier, self.subscription_id)).len() + enc_opt(prop_text(PropertyType::ReasonString, self.reason_string)).len() + enc_opt(prop_u16(PropertyType::TopicAlias, self.topic_alias)).len() + enc_opt(prop_u8(PropertyType::MaximumQoS, self.maximum_qos)).len() + enc_opt(prop_u8(PropertyType::RetainAvailable, self.retain_available)).len() + enc_opt(prop_text(PropertyType::AssignedClientIdentifier, self.assigned_client_identifier)).len() + enc_opt(prop_u8(PropertyType::WildcardSubscriptionAvailable, self.wildcard_subscription_available)).len() + enc_opt(prop_u8(PropertyType::SubscriptionIdentifierAvailable, self.subscription_identifiers_available)).len() + enc_opt(prop_u8(PropertyType::SharedSubscriptionAvailable, self.shared_subscription_available)).len() + enc_opt(prop_u16(PropertyType::ServerKeepAlive, self.server_keep_alive)).len() + enc_opt(prop_text(PropertyType::ResponseInformation, self.response_information)).len() + enc_opt(prop_text(PropertyType::ServerReference, self.server_reference)).len() + enc_users(
            self.user_properties,
        ).len()) as int
    }
}

/// The properties from position `i` to the end of `s`, read one after the
/// other into `bag`.
pub open spec fn dec_props_from(ctx: PropCtx, s: Seq<u8>, i: int, bag: PropsView) -> Result<
    PropsView,
    Error,
>
    decreases s.len() - i,
{
    if i >= s.len() {
        Ok(bag)
    } else {
        match PropertyView::dec(s, i) {
            Err(e) => Err(e),
            Ok((p, j)) => match bag.accept(ctx, p) {
                Err(e) => Err(e),
                Ok(bag2) => if i < j <= s.len() {
                    dec_props_from(ctx, s, j, bag2)
                } else {
                    Err(malformed())
                },
            },
        }
    }
}

/// A properties section read at position `i`: a length, and the properties
/// that fill exactly that many bytes. A section that runs past the end of `s`
/// is malformed, and so is a property that runs past the end of its section.
pub open spec fn dec_section(ctx: PropCtx, s: Seq<u8>, i: int) -> Result<(PropsView, int), Error> {
    match dec_varu32(s, i) {
        Err(e) => Err(e),
        Ok((len, j)) => if j + len > s.len() {
            Err(malformed())
        } else {
            match dec_props_from(ctx, s.subrange(0, j + len), j, PropsView::empty()) {
                Err(e) => Err(e),
                Ok(bag) => Ok((bag, j + len)),
            }
        },
    }
}

/// As `dec_section`, but a section of length 0 counts as absent.
pub open spec fn dec_opt_section(ctx: PropCtx, s: Seq<u8>, i: int) -> Result<
    (Option<PropsView>, int),
    Error,
> {
    match dec_varu32(s, i) {
        Err(e) => Err(e),
        Ok((len, j)) => if len == 0 {
            Ok((None, j))
        } else {
            match dec_section(ctx, s, i) {
                Err(e) => Err(e),
                Ok((bag, n)) => Ok((Some(bag), n)),
            }
        },
    }
}

/// The bytes of a section whose properties are `body`.
pub open spec fn enc_section(body: Seq<u8>) -> Seq<u8> {
    enc_varu32(body.len() as u32) + body
}

impl PropValue {
    /// Whether the value has the form `kind`.
    pub fn has_kind(&self, kind: ValueKind) -> (b: bool)
        ensures
            b == (self@.kind() == kind),
    {
        match (self, kind) {
            (PropValue::Byte(_), ValueKind::Byte) => true,
            (PropValue::TwoByte(_), ValueKind::TwoByte) => true,
            (PropValue::FourByte(_), ValueKind::FourByte) => true,
            (PropValue::VarInt(_), ValueKind::VarInt) => true,
            (PropValue::Text(_), ValueKind::Text) => true,
            (PropValue::Binary(_), ValueKind::Binary) => true,
            (PropValue::TextPair(_, _), ValueKind::TextPair) => true,
            _ => false,
        }
    }

    /// Reads a value of the form `kind` at `off`.
    pub fn decode(kind: ValueKind, stream: &[u8], off: usize) -> (res: Result<
        (PropValue, usize),
        Error,
    >)
        ensures
            agrees_view(res, PropValueView::dec(kind, stream@, off as int)),
            res matches Ok((v, n)) ==> off < n <= stream@.len(),
    {
        match kind {
            ValueKind::Byte => match decode_u8(stream, off) {
                Ok((v, j)) => Ok((PropValue::Byte(v), j)),
                Err(e) => Err(e),
            },
            ValueKind::TwoByte => match decode_u16(stream, off) {
                Ok((v, j)) => Ok((PropValue::TwoByte(v), j)),
                Err(e) => Err(e),
            },
            ValueKind::FourByte => match decode_u32(stream, off) {
                Ok((v, j)) => Ok((PropValue::FourByte(v), j)),
                Err(e) => Err(e),
            },
            ValueKind::VarInt => match decode_varu32(stream, off) {
                Ok((v, j)) => Ok((PropValue::VarInt(v), j)),
                Err(e) => Err(e),
            },
            ValueKind::Text => match decode_string(stream, off) {
                Ok((v, j)) => Ok((PropValue::Text(v), j)),
                Err(e) => Err(e),
            },
            ValueKind::Binary => match decode_bytes(stream, off) {
                Ok((v, j)) => Ok((PropValue::Binary(v), j)),
                Err(e) => Err(e),
            },
            ValueKind::TextPair => match decode_string(stream, off) {
                Err(e) => Err(e),
                Ok((k, j)) => match decode_string(stream, j) {
                    Ok((v, n)) => Ok((PropValue::TextPair(k, v), n)),
                    Err(e) => Err(e),
                },
            },
        }
    }
}

impl Property {
    /// Reads one property at `off`.
    pub fn decode(stream: &[u8], off: usize) -> (res: Result<(Property, usize), Error>)
        ensures
            agrees_view(res, PropertyView::dec(stream@, off as int)),
            res matches Ok((p, n)) ==> off < n <= stream@.len(),
    {
        reveal(PropertyView::dec);
        match decode_varu32(stream, off) {
            Err(e) => Err(e),
            Ok((id, j)) => match PropertyType::from_id(id) {
                None => Err(Error::malformed()),
                Some(t) => match PropValue::decode(t.kind(), stream, j) {
                    Err(e) => Err(e),
                    Ok((v, n)) => Ok((Property { typ: t, value: v }, n)),
                },
            },
        }
    }

    /// Checks the rules on single values.
    pub fn value_ok(&self) -> (res: Result<(), Error>)
        ensures
            res == self@.value_ok(),
    {
        match (self.typ, &self.value) {
            (PropertyType::ReceiveMaximum, PropValue::TwoByte(v)) => if *v == 0 {
                Err(Error::protocol_error())
            } else {
                Ok(())
            },
            (PropertyType::MaximumPacketSize, PropValue::FourByte(v)) => if *v == 0 {
                Err(Error::protocol_error())
            } else {
                Ok(())
            },
            (PropertyType::SubscriptionIdentifier, PropValue::VarInt(v)) => if *v == 0 {
                Err(Error::protocol_error())
            } else {
                Ok(())
            },
            (PropertyType::TopicAlias, PropValue::TwoByte(v)) => if *v == 0 {
                Err(Error::protocol_error())
            } else {
                Ok(())
            },
            (PropertyType::RequestResponseInformation, PropValue::Byte(v)) => if *v > 1 {
                Err(Error::protocol_error())
            } else {
                Ok(())
            },
            (PropertyType::RequestProblemInformation, PropValue::Byte(v)) => if *v > 1 {
                Err(Error::protocol_error())
            } else {
                Ok(())
            },
            (PropertyType::MaximumQoS, PropValue::Byte(v)) => if *v > 1 {
                Err(Error::protocol_error())
            } else {
                Ok(())
            },
            (PropertyType::RetainAvailable, PropValue::Byte(v)) => if *v > 1 {
                Err(Error::protocol_error())
            } else {
                Ok(())
            },
            (PropertyType::WildcardSubscriptionAvailable, PropValue::Byte(v)) => if *v > 1 {
                Err(Error::protocol_error())
            } else {
                Ok(())
            },
            (PropertyType::SubscriptionIdentifierAvailable, PropValue::Byte(v)) => if *v > 1 {
                Err(Error::protocol_error())
            } else {
                Ok(())
            },
            (PropertyType::SharedSubscriptionAvailable, PropValue::Byte(v)) => if *v > 1 {
                Err(Error::protocol_error())
            } else {
                Ok(())
            },
            (PropertyType::PayloadFormatIndicator, PropValue::Byte(v)) => if *v > 1 {
                Err(Error::malformed())
            } else {
                Ok(())
            },
            _ => Ok(()),
        }
    }
}

impl PropBag {
    /// Whether the property `t` is held.
    pub fn has(&self, t: PropertyType) -> (b: bool)
        ensures
            b == self@.has(t),
    {
        match t {
            PropertyType::SessionExpiryInterval => self.session_expiry_interval.is_some(),
            PropertyType::ReceiveMaximum => self.receive_maximum.is_some(),
            PropertyType::MaximumPacketSize => self.max_packet_size.is_some(),
            PropertyType::TopicAliasMaximum => self.topic_alias_max.is_some(),
            PropertyType::RequestResponseInformation => self.request_response_info.is_some(),
            PropertyType::RequestProblemInformation => self.request_problem_info.is_some(),
            PropertyType::AuthenticationMethod => self.authentication_method.is_some(),
            PropertyType::AuthenticationData => self.authentication_data.is_some(),
            PropertyType::WillDelayInterval => self.will_delay_interval.is_some(),
            PropertyType::PayloadFormatIndicator => self.payload_format_indicator.is_some(),
            PropertyType::MessageExpiryInterval => self.message_expiry_interval.is_some(),
            PropertyType::ContentType => self.content_type.is_some(),
            PropertyType::ResponseTopic => self.response_topic.is_some(),
            PropertyType::CorrelationData => self.correlation_data.is_some(),
            PropertyType::SubscriptionIdentifier => self.subscription_id.is_some(),
            PropertyType::ReasonString => self.reason_string.is_some(),
            PropertyType::TopicAlias => self.topic_alias.is_some(),
            PropertyType::MaximumQoS => self.maximum_qos.is_some(),
            PropertyType::RetainAvailable => self.retain_available.is_some(),
            PropertyType::AssignedClientIdentifier => self.assigned_client_identifier.is_some(),
            PropertyType::WildcardSubscriptionAvailable => self.wildcard_subscription_available.is_some(),
            PropertyType::SubscriptionIdentifierAvailable => self.subscription_identifiers_available.is_some(),
            PropertyType::SharedSubscriptionAvailable => self.shared_subscription_available.is_some(),
            PropertyType::ServerKeepAlive => self.server_keep_alive.is_some(),
            PropertyType::ResponseInformation => self.response_information.is_some(),
            PropertyType::ServerReference => self.server_reference.is_some(),
            _ => false,
        }
    }

    /// The bag that holds nothing.
    pub fn new() -> (bag: PropBag)
        ensures
            bag@ == PropsView::empty(),
    {
        let bag = PropBag {
            session_expiry_interval: None,
            receive_maximum: None,
            max_packet_size: None,
            topic_alias_max: None,
            request_response_info: None,
            request_problem_info: None,
            authentication_method: None,
            authentication_data: None,
            will_delay_interval: None,
            payload_format_indicator: None,
            message_expiry_interval: None,
            content_type: None,
            response_topic: None,
            correlation_data: None,
            subscription_id: None,
            reason_string: None,
            topic_alias: None,
            maximum_qos: None,
            retain_available: None,
            assigned_client_identifier: None,
            wildcard_subscription_available: None,
            subscription_identifiers_available: None,
            shared_subscription_available: None,
            server_keep_alive: None,
            response_information: None,
            server_reference: None,
            user_properties: Vec::new(),
        };
        assert(bag@.user_properties =~= Seq::empty());
        bag
    }

    /// Takes `p` into the bag, as a section of `ctx` would; a property that is
    /// refused leaves the bag in an unspecified state.
    pub fn accept(&mut self, ctx: PropCtx, p: Property) -> (res: Result<(), Error>)
        ensures
            match res {
                Ok(()) => old(self)@.accept(ctx, p@) == Ok::<PropsView, Error>(final(self)@),
                Err(e) => old(self)@.accept(ctx, p@) == Err::<PropsView, Error>(e),
            },
    {
        reveal(PropsView::accept);
        if !is_allowed(ctx, p.typ) {
            return Err(Error::protocol_error());
        }
        if !p.value.has_kind(p.typ.kind()) {
            return Err(Error::malformed());
        }
        if self.has(p.typ) {
            return Err(Error::protocol_error());
        }
        match p.value_ok() {
            Err(e) => {
                return Err(e);
            },
            Ok(()) => {},
        }
        match (p.typ, p.value) {
            (PropertyType::UserProp, PropValue::TextPair(k, v)) => {
                self.user_properties.push((k, v));
                assert(self@.user_properties =~= old(self)@.user_properties.push(
                    (str_bytes(k@), str_bytes(v@)),
                ));
            },
            (PropertyType::SessionExpiryInterval, PropValue::FourByte(v)) => {
                self.session_expiry_interval = Some(v);
            },
            (PropertyType::ReceiveMaximum, PropValue::TwoByte(v)) => {
                self.receive_maximum = Some(v);
            },
            (PropertyType::MaximumPacketSize, PropValue::FourByte(v)) => {
                self.max_packet_size = Some(v);
            },
            (PropertyType::TopicAliasMaximum, PropValue::TwoByte(v)) => {
                self.topic_alias_max = Some(v);
            },
            (PropertyType::RequestResponseInformation, PropValue::Byte(v)) => {
                self.request_response_info = Some(v);
            },
            (PropertyType::RequestProblemInformation, PropValue::Byte(v)) => {
                self.request_problem_info = Some(v);
            },
            (PropertyType::AuthenticationMethod, PropValue::Text(v)) => {
                self.authentication_method = Some(v);
            },
            (PropertyType::AuthenticationData, PropValue::Binary(v)) => {
                self.authentication_data = Some(v);
            },
            (PropertyType::WillDelayInterval, PropValue::FourByte(v)) => {
                self.will_delay_interval = Some(v);
            },
            (PropertyType::PayloadFormatIndicator, PropValue::Byte(v)) => {
                self.payload_format_indicator = Some(v);
            },
            (PropertyType::MessageExpiryInterval, PropValue::FourByte(v)) => {
                self.message_expiry_interval = Some(v);
            },
            (PropertyType::ContentType, PropValue::Text(v)) => {
                self.content_type = Some(v);
            },
            (PropertyType::ResponseTopic, PropValue::Text(v)) => {
                self.response_topic = Some(v);
            },
            (PropertyType::CorrelationData, PropValue::Binary(v)) => {
                self.correlation_data = Some(v);
            },
            (PropertyType::SubscriptionIdentifier, PropValue::VarInt(v)) => {
                self.subscription_id = Some(v);
            },
            (PropertyType::ReasonString, PropValue::Text(v)) => {
                self.reason_string = Some(v);
            },
            (PropertyType::TopicAlias, PropValue::TwoByte(v)) => {
                self.topic_alias = Some(v);
            },
            (PropertyType::MaximumQoS, PropValue::Byte(v)) => {
                self.maximum_qos = Some(v);
            },
            (PropertyType::RetainAvailable, PropValue::Byte(v)) => {
                self.retain_available = Some(v);
            },
            (PropertyType::AssignedClientIdentifier, PropValue::Text(v)) => {
                self.assigned_client_identifier = Some(v);
            },
            (PropertyType::WildcardSubscriptionAvailable, PropValue::Byte(v)) => {
                self.wildcard_subscription_available = Some(v);
            },
            (PropertyType::SubscriptionIdentifierAvailable, PropValue::Byte(v)) => {
                self.subscription_identifiers_available = Some(v);
            },
            (PropertyType::SharedSubscriptionAvailable, PropValue::Byte(v)) => {
                self.shared_subscription_available = Some(v);
            },
            (PropertyType::ServerKeepAlive, PropValue::TwoByte(v)) => {
                self.server_keep_alive = Some(v);
            },
            (PropertyType::ResponseInformation, PropValue::Text(v)) => {
                self.response_information = Some(v);
            },
            (PropertyType::ServerReference, PropValue::Text(v)) => {
                self.server_reference = Some(v);
            },
            _ => {},
        }
        Ok(())
    }

    /// Reads the properties section that starts at `off`.
    pub fn decode(ctx: PropCtx, stream: &[u8], off: usize) -> (res: Result<
        (PropBag, usize),
        Error,
    >)
        ensures
            agrees_view(res, dec_section(ctx, stream@, off as int)),
            res matches Ok((bag, n)) ==> off < n <= stream@.len(),
    {
        let (len, start) = match decode_varu32(stream, off) {
            Err(e) => {
                return Err(e);
            },
            Ok(x) => x,
        };
        if stream.len() - start < len as usize {
            return Err(Error::malformed());
        }
        let limit: usize = start + len as usize;
        let section = slice_subrange(stream, 0, limit);
        let mut bag = PropBag::new();
        let mut n: usize = start;
        while n < limit
            invariant
                start <= n <= limit,
                limit == start + len,
                limit <= stream@.len(),
                section@ == stream@.subrange(0, limit as int),
                dec_varu32(stream@, off as int) == Ok::<(u32, int), Error>((len, start as int)),
                dec_props_from(ctx, section@, start as int, PropsView::empty()) == dec_props_from(
                    ctx,
                    section@,
                    n as int,
                    bag@,
                ),
            decreases limit - n,
        {
            let (p, m) = match Property::decode(section, n) {
                Err(e) => {
                    return Err(e);
                },
                Ok(x) => x,
            };
            match bag.accept(ctx, p) {
                Err(e) => {
                    return Err(e);
                },
                Ok(()) => {},
            }
            n = m;
        }
        Ok((bag, limit))
    }

    /// Reads the properties section that starts at `off`; a section of length 0
    /// counts as absent.
    pub fn decode_opt(ctx: PropCtx, stream: &[u8], off: usize) -> (res: Result<
        (Option<PropBag>, usize),
        Error,
    >)
        ensures
            match res {
                Ok((bag, n)) => dec_opt_section(ctx, stream@, off as int) == Ok::<
                    (Option<PropsView>, int),
                    Error,
                >((opt_bag_view(bag), n as int)),
                Err(e) => dec_opt_section(ctx, stream@, off as int) == Err::<
                    (Option<PropsView>, int),
                    Error,
                >(e),
            },
            res matches Ok((bag, n)) ==> off < n <= stream@.len(),
    {
        match decode_varu32(stream, off) {
            Err(e) => Err(e),
            Ok((len, j)) => if len == 0 {
                Ok((None, j))
            } else {
                match Self::decode(ctx, stream, off) {
                    Err(e) => Err(e),
                    Ok((bag, n)) => Ok((Some(bag), n)),
                }
            },
        }
    }
}

/// The view of a bag that may be absent.
pub open spec fn opt_bag_view(bag: Option<PropBag>) -> Option<PropsView> {
    match bag {
        Some(b) => Some(b@),
        None => None,
    }
}

/// The property, if there is one, can be written.
pub open spec fn opt_fits(p: Option<PropertyView>) -> bool {
    match p {
        Some(p) => p.value.fits(),
        None => true,
    }
}

/// Every user property can be written.
pub open spec fn users_fit(us: Seq<(Seq<u8>, Seq<u8>)>) -> bool {
    forall|k: int| 0 <= k < us.len() ==> (#[trigger] user_prop(us[k])).value.fits()
}

/// Appends the property `t` with a one-byte value, if there is a value.
pub fn put_prop_u8(data: &mut Vec<u8>, t: PropertyType, v: Option<u8>)
    ensures
        final(data)@ == old(data)@ + enc_opt(prop_u8(t, v)),
{
    match v {
        Some(v) => {
            put_u8(data, t.id());
            put_u8(data, v);
            assert(data@ =~= old(data)@ + enc_opt(prop_u8(t, Some(v))));
        },
        None => {
            assert(data@ =~= old(data)@ + enc_opt(prop_u8(t, None)));
        },
    }
}

/// Appends the property `t` with a two-byte value, if there is a value.
pub fn put_prop_u16(data: &mut Vec<u8>, t: PropertyType, v: Option<u16>)
    ensures
        final(data)@ == old(data)@ + enc_opt(prop_u16(t, v)),
{
    match v {
        Some(v) => {
            put_u8(data, t.id());
            put_u16(data, v);
            assert(data@ =~= old(data)@ + enc_opt(prop_u16(t, Some(v))));
        },
        None => {
            assert(data@ =~= old(data)@ + enc_opt(prop_u16(t, None)));
        },
    }
}

/// Appends the property `t` with a four-byte value, if there is a value.
pub fn put_prop_u32(data: &mut Vec<u8>, t: PropertyType, v: Option<u32>)
    ensures
        final(data)@ == old(data)@ + enc_opt(prop_u32(t, v)),
{
    match v {
        Some(v) => {
            put_u8(data, t.id());
            put_u32(data, v);
            assert(data@ =~= old(data)@ + enc_opt(prop_u32(t, Some(v))));
        },
        None => {
            assert(data@ =~= old(data)@ + enc_opt(prop_u32(t, None)));
        },
    }
}

/// Appends the property `t` with a variable-byte integer, if there is a value;
/// a value that cannot be written is refused.
pub fn put_prop_varint(data: &mut Vec<u8>, t: PropertyType, v: Option<u32>) -> (res: Result<
    (),
    Error,
>)
    ensures
        opt_fits(prop_varint(t, v)) ==> res is Ok && final(data)@ == old(data)@ + enc_opt(
            prop_varint(t, v),
        ),
        !opt_fits(prop_varint(t, v)) ==> res == Err::<(), Error>(malformed()),
{
    match v {
        Some(v) => {
            if v > VARU32_MAX {
                return Err(Error::malformed());
            }
            put_u8(data, t.id());
            let r = put_varu32(data, v);
            assert(data@ =~= old(data)@ + enc_opt(prop_varint(t, Some(v))));
            r
        },
        None => {
            assert(data@ =~= old(data)@ + enc_opt(prop_varint(t, None)));
            Ok(())
        },
    }
}

/// The bytes of a string slice that may be absent.
pub open spec fn opt_slice_view(v: Option<&str>) -> Option<Seq<u8>> {
    match v {
        Some(v) => Some(str_bytes(v@)),
        None => None,
    }
}

/// The string in `v` as a slice.
pub fn opt_str(v: &Option<String>) -> (res: Option<&str>)
    ensures
        opt_slice_view(res) == opt_str_view(*v),
{
    match v {
        Some(s) => Some(s.as_str()),
        None => None,
    }
}

/// Appends the property `t` with a text value, if there is a value; text
/// that cannot be written is refused.
pub fn put_prop_text(data: &mut Vec<u8>, t: PropertyType, v: Option<&str>) -> (res: Result<
    (),
    Error,
>)
    ensures
        opt_fits(prop_text(t, opt_slice_view(v))) ==> res is Ok && final(data)@ == old(data)@
            + enc_opt(prop_text(t, opt_slice_view(v))),
        !opt_fits(prop_text(t, opt_slice_view(v))) ==> res == Err::<(), Error>(malformed()),
{
    match v {
        Some(v) => {
            if v.as_bytes().len() > FIELD_MAX {
                return Err(Error::malformed());
            }
            put_u8(data, t.id());
            let r = put_string(data, v);
            assert(data@ =~= old(data)@ + enc_opt(prop_text(t, Some(str_bytes(v@)))));
            r
        },
        None => {
            assert(data@ =~= old(data)@ + enc_opt(prop_text(t, None)));
            Ok(())
        },
    }
}

/// Appends the property `t` with a binary value, if there is a value; data
/// that cannot be written is refused.
pub fn put_prop_binary(data: &mut Vec<u8>, t: PropertyType, v: &Option<Vec<u8>>) -> (res: Result<
    (),
    Error,
>)
    ensures
        opt_fits(prop_binary(t, opt_bin_view(*v))) ==> res is Ok && final(data)@ == old(data)@
            + enc_opt(prop_binary(t, opt_bin_view(*v))),
        !opt_fits(prop_binary(t, opt_bin_view(*v))) ==> res == Err::<(), Error>(malformed()),
{
    match v {
        Some(v) => {
            if v.len() > FIELD_MAX {
                return Err(Error::malformed());
            }
            put_u8(data, t.id());
            let r = put_bytes(data, v.as_slice());
            assert(data@ =~= old(data)@ + enc_opt(prop_binary(t, Some(v@))));
            r
        },
        None => {
            assert(data@ =~= old(data)@ + enc_opt(prop_binary(t, None)));
            Ok(())
        },
    }
}

/// Appends the user properties, in order; if one of them cannot be written,
/// the call is refused.
pub fn put_user_props(data: &mut Vec<u8>, us: &Vec<UserProperty>) -> (res: Result<(), Error>)
    ensures
        users_fit(user_props_view(us@)) ==> res is Ok && final(data)@ == old(data)@ + enc_users(
            user_props_view(us@),
        ),
        !users_fit(user_props_view(us@)) ==> res == Err::<(), Error>(malformed()),
{
    let ghost view = user_props_view(us@);
    let mut k: usize = 0;
    while k < us.len()
        invariant
            k <= us@.len(),
            view == user_props_view(us@),
            data@ == old(data)@ + enc_users(view.take(k as int)),
            users_fit(view.take(k as int)),
        decreases us@.len() - k,
    {
        let u = &us[k];
        let ghost before = data@;
        let ghost p = user_prop(view[k as int]);
        if u.0.as_str().as_bytes().len() > FIELD_MAX || u.1.as_str().as_bytes().len() > FIELD_MAX {
            assert(!p.value.fits());
            return Err(Error::malformed());
        }
        put_u8(data, PropertyType::UserProp.id());
        let _ = put_string(data, u.0.as_str());
        let _ = put_string(data, u.1.as_str());
        proof {
            let next = view.take(k + 1);
            assert(next.drop_last() =~= view.take(k as int));
            assert(next.last() == view[k as int]);
            assert(data@ =~= before + p.enc());
            assert(data@ =~= old(data)@ + enc_users(next));
            assert forall|j: int| 0 <= j < next.len() implies (#[trigger] user_prop(
                next[j],
            )).value.fits() by {
                if j < k {
                    assert(view.take(k as int)[j] == next[j]);
                }
            }
        }
        k += 1;
    }
    assert(view.take(us@.len() as int) =~= view);
    Ok(())
}

// ---------------------------------------------------------------------------
// Laws of properties
// ---------------------------------------------------------------------------

/// A value that can be written, read back where it was written, is the value
/// written.
pub proof fn lemma_dec_enc_value(s: Seq<u8>, i: int, v: PropValueView)
    requires
        v.fits(),
        v.text_valid(),
        has_at(s, i, v.enc()),
    ensures
        PropValueView::dec(v.kind(), s, i) == Ok::<(PropValueView, int), Error>(
            (v, i + v.enc().len()),
        ),
        v.enc().len() >= 1,
{
    reveal(has_at);
    match v {
        PropValueView::Byte(x) => {
            lemma_dec_enc_u8(s, i, x);
        },
        PropValueView::TwoByte(x) => {
            lemma_dec_enc_u16(s, i, x);
        },
        PropValueView::FourByte(x) => {
            lemma_dec_enc_u32(s, i, x);
        },
        PropValueView::VarInt(x) => {
            lemma_dec_enc_varu32(s, i, x);
        },
        PropValueView::Text(b) => {
            lemma_dec_enc_string(s, i, b);
        },
        PropValueView::Binary(b) => {
            lemma_dec_enc_bytes(s, i, b);
        },
        PropValueView::TextPair(k, x) => {
            lemma_has_at_split(s, i, enc_bytes(k), enc_bytes(x));
            lemma_dec_enc_string(s, i, k);
            lemma_dec_enc_string(s, i + 2 + k.len(), x);
        },
    }
}

/// A well-formed property, read back where it was written, is the property
/// written.
pub proof fn lemma_dec_enc_property(s: Seq<u8>, i: int, p: PropertyView)
    requires
        p.wf(),
        has_at(s, i, p.enc()),
    ensures
        PropertyView::dec(s, i) == Ok::<(PropertyView, int), Error>((p, i + p.enc().len())),
        p.enc().len() >= 2,
{
    reveal(has_at);
    reveal(PropertyView::dec);
    lemma_has_at_split(s, i, enc_u8(p.typ.spec_id()), p.value.enc());
    assert(s.subrange(i, i + 1)[0] == enc_u8(p.typ.spec_id())[0]);
    lemma_dec_enc_value(s, i + 1, p.value);
}

/// Reading a section passes over a property that stands at `i` and that the
/// section takes in.
pub proof fn lemma_dec_props_step(ctx: PropCtx, s: Seq<u8>, i: int, bag: PropsView, p: PropertyView)
    requires
        p.wf(),
        has_at(s, i, p.enc()),
        allowed(ctx, p.typ),
        !bag.has(p.typ),
        p.value_ok() is Ok,
    ensures
        dec_props_from(ctx, s, i, bag) == dec_props_from(ctx, s, i + p.enc().len(), bag.put(p)),
{
    reveal(has_at);
    reveal(PropsView::accept);
    lemma_dec_enc_property(s, i, p);
}

/// As `lemma_dec_props_step`, for a property that may be absent.
pub proof fn lemma_dec_props_step_opt(
    ctx: PropCtx,
    s: Seq<u8>,
    i: int,
    bag: PropsView,
    p: Option<PropertyView>,
)
    requires
        has_at(s, i, enc_opt(p)),
        p matches Some(q) ==> q.wf() && allowed(ctx, q.typ) && !bag.has(q.typ) && q.value_ok() is Ok,
    ensures
        dec_props_from(ctx, s, i, bag) == dec_props_from(
            ctx,
            s,
            i + enc_opt(p).len(),
            match p {
                Some(q) => bag.put(q),
                None => bag,
            },
        ),
{
    match p {
        Some(q) => {
            lemma_dec_props_step(ctx, s, i, bag, q);
        },
        None => {},
    }
}

/// Reading a section passes over user properties that stand at `i`, and keeps
/// them in their order.
#[verifier::rlimit(40)]
pub proof fn lemma_dec_props_users(
    ctx: PropCtx,
    s: Seq<u8>,
    i: int,
    bag: PropsView,
    us: Seq<(Seq<u8>, Seq<u8>)>,
)
    requires
        users_wf(us),
        has_at(s, i, enc_users(us)),
    ensures
        dec_props_from(ctx, s, i, bag) == dec_props_from(
            ctx,
            s,
            i + enc_users(us).len(),
            PropsView { user_properties: bag.user_properties + us, ..bag },
        ),
    decreases us.len(),
{
    if us.len() == 0 {
        assert(bag.user_properties + us =~= bag.user_properties);
    } else {
        let front = us.drop_last();
        let p = user_prop(us.last());
        lemma_has_at_split(s, i, enc_users(front), p.enc());
        assert forall|k: int| 0 <= k < front.len() implies (#[trigger] user_prop(front[k])).wf() by {
            assert(front[k] == us[k]);
        }
        lemma_dec_props_users(ctx, s, i, bag, front);
        let mid = PropsView { user_properties: bag.user_properties + front, ..bag };
        assert(p == user_prop(us[us.len() - 1]));
        lemma_dec_props_step(ctx, s, i + enc_users(front).len(), mid, p);
        assert(bag.user_properties + us =~= (bag.user_properties + front).push(us.last()));
    }
}

/// Reading a section passes over the property `SessionExpiryInterval` where it stands, if
/// it stands there, and keeps its value.
pub proof fn lemma_step_session_expiry_interval(
    ctx: PropCtx,
    s: Seq<u8>,
    i: int,
    bag: PropsView,
    v: Option<u32>,
)
    requires
        has_at(s, i, enc_opt(prop_u32(PropertyType::SessionExpiryInterval, v))),
        allowed(ctx, PropertyType::SessionExpiryInterval),
        bag.session_expiry_interval is None,
    ensures
        dec_props_from(ctx, s, i, bag) == dec_props_from(
            ctx,
            s,
            i + enc_opt(prop_u32(PropertyType::SessionExpiryInterval, v)).len(),
            PropsView { session_expiry_interval: v, ..bag },
        ),
{
    lemma_dec_props_step_opt(ctx, s, i, bag, prop_u32(PropertyType::SessionExpiryInterval, v));
}

/// Reading a section passes over the property `ReceiveMaximum` where it stands, if
/// it stands there, and keeps its value.
pub proof fn lemma_step_receive_maximum(
    ctx: PropCtx,
    s: Seq<u8>,
    i: int,
    bag: PropsView,
    v: Option<u16>,
)
    requires
        has_at(s, i, enc_opt(prop_u16(PropertyType::ReceiveMaximum, v))),
        allowed(ctx, PropertyType::ReceiveMaximum),
        bag.receive_maximum is None,
        v matches Some(x) ==> x != 0,
    ensures
        dec_props_from(ctx, s, i, bag) == dec_props_from(
            ctx,
            s,
            i + enc_opt(prop_u16(PropertyType::ReceiveMaximum, v)).len(),
            PropsView { receive_maximum: v, ..bag },
        ),
{
    lemma_dec_props_step_opt(ctx, s, i, bag, prop_u16(PropertyType::ReceiveMaximum, v));
}

/// Reading a section passes over the property `MaximumPacketSize` where it stands, if
/// it stands there, and keeps its value.
pub proof fn lemma_step_max_packet_size(
    ctx: PropCtx,
    s: Seq<u8>,
    i: int,
    bag: PropsView,
    v: Option<u32>,
)
    requires
        has_at(s, i, enc_opt(prop_u32(PropertyType::MaximumPacketSize, v))),
        allowed(ctx, PropertyType::MaximumPacketSize),
        bag.max_packet_size is None,
        v matches Some(x) ==> x != 0,
    ensures
        dec_props_from(ctx, s, i, bag) == dec_props_from(
            ctx,
            s,
            i + enc_opt(prop_u32(PropertyType::MaximumPacketSize, v)).len(),
            PropsView { max_packet_size: v, ..bag },
        ),
{
    lemma_dec_props_step_opt(ctx, s, i, bag, prop_u32(PropertyType::MaximumPacketSize, v));
}

/// Reading a section passes over the property `TopicAliasMaximum` where it stands, if
/// it stands there, and keeps its value.
pub proof fn lemma_step_topic_alias_max(
    ctx: PropCtx,
    s: Seq<u8>,
    i: int,
    bag: PropsView,
    v: Option<u16>,
)
    requires
        has_at(s, i, enc_opt(prop_u16(PropertyType::TopicAliasMaximum, v))),
        allowed(ctx, PropertyType::TopicAliasMaximum),
        bag.topic_alias_max is None,
    ensures
        dec_props_from(ctx, s, i, bag) == dec_props_from(
            ctx,
            s,
            i + enc_opt(prop_u16(PropertyType::TopicAliasMaximum, v)).len(),
            PropsView { topic_alias_max: v, ..bag },
        ),
{
    lemma_dec_props_step_opt(ctx, s, i, bag, prop_u16(PropertyType::TopicAliasMaximum, v));
}

/// Reading a section passes over the property `RequestResponseInformation` where it stands, if
/// it stands there, and keeps its value.
pub proof fn lemma_step_request_response_info(
    ctx: PropCtx,
    s: Seq<u8>,
    i: int,
    bag: PropsView,
    v: Option<u8>,
)
    requires
        has_at(s, i, enc_opt(prop_u8(PropertyType::RequestResponseInformation, v))),
        allowed(ctx, PropertyType::RequestResponseInformation),
        bag.request_response_info is None,
        v matches Some(x) ==> x <= 1,
    ensures
        dec_props_from(ctx, s, i, bag) == dec_props_from(
            ctx,
            s,
            i + enc_opt(prop_u8(PropertyType::RequestResponseInformation, v)).len(),
            PropsView { request_response_info: v, ..bag },
        ),
{
    lemma_dec_props_step_opt(ctx, s, i, bag, prop_u8(PropertyType::RequestResponseInformation, v));
}

/// Reading a section passes over the property `RequestProblemInformation` where it stands, if
/// it stands there, and keeps its value.
pub proof fn lemma_step_request_problem_info(
    ctx: PropCtx,
    s: Seq<u8>,
    i: int,
    bag: PropsView,
    v: Option<u8>,
)
    requires
        has_at(s, i, enc_opt(prop_u8(PropertyType::RequestProblemInformation, v))),
        allowed(ctx, PropertyType::RequestProblemInformation),
        bag.request_problem_info is None,
        v matches Some(x) ==> x <= 1,
    ensures
        dec_props_from(ctx, s, i, bag) == dec_props_from(
            ctx,
            s,
            i + enc_opt(prop_u8(PropertyType::RequestProblemInformation, v)).len(),
            PropsView { request_problem_info: v, ..bag },
        ),
{
    lemma_dec_props_step_opt(ctx, s, i, bag, prop_u8(PropertyType::RequestProblemInformation, v));
}

/// Reading a section passes over the property `AuthenticationMethod` where it stands, if
/// it stands there, and keeps its value.
pub proof fn lemma_step_authentication_method(
    ctx: PropCtx,
    s: Seq<u8>,
    i: int,
    bag: PropsView,
    v: Option<Seq<u8>>,
)
    requires
        has_at(s, i, enc_opt(prop_text(PropertyType::AuthenticationMethod, v))),
        allowed(ctx, PropertyType::AuthenticationMethod),
        bag.authentication_method is None,
        v matches Some(x) ==> x.len() <= FIELD_MAX && valid_utf8(x),
    ensures
        dec_props_from(ctx, s, i, bag) == dec_props_from(
            ctx,
            s,
            i + enc_opt(prop_text(PropertyType::AuthenticationMethod, v)).len(),
            PropsView { authentication_method: v, ..bag },
        ),
{
    lemma_dec_props_step_opt(ctx, s, i, bag, prop_text(PropertyType::AuthenticationMethod, v));
}

/// Reading a section passes over the property `AuthenticationData` where it stands, if
/// it stands there, and keeps its value.
pub proof fn lemma_step_authentication_data(
    ctx: PropCtx,
    s: Seq<u8>,
    i: int,
    bag: PropsView,
    v: Option<Seq<u8>>,
)
    requires
        has_at(s, i, enc_opt(prop_binary(PropertyType::AuthenticationData, v))),
        allowed(ctx, PropertyType::AuthenticationData),
        bag.authentication_data is None,
        v matches Some(x) ==> x.len() <= FIELD_MAX,
    ensures
        dec_props_from(ctx, s, i, bag) == dec_props_from(
            ctx,
            s,
            i + enc_opt(prop_binary(PropertyType::AuthenticationData, v)).len(),
            PropsView { authentication_data: v, ..bag },
        ),
{
    lemma_dec_props_step_opt(ctx, s, i, bag, prop_binary(PropertyType::AuthenticationData, v));
}

/// Reading a section passes over the property `WillDelayInterval` where it stands, if
/// it stands there, and keeps its value.
pub proof fn lemma_step_will_delay_interval(
    ctx: PropCtx,
    s: Seq<u8>,
    i: int,
    bag: PropsView,
    v: Option<u32>,
)
    requires
        has_at(s, i, enc_opt(prop_u32(PropertyType::WillDelayInterval, v))),
        allowed(ctx, PropertyType::WillDelayInterval),
        bag.will_delay_interval is None,
    ensures
        dec_props_from(ctx, s, i, bag) == dec_props_from(
            ctx,
            s,
            i + enc_opt(prop_u32(PropertyType::WillDelayInterval, v)).len(),
            PropsView { will_delay_interval: v, ..bag },
        ),
{
    lemma_dec_props_step_opt(ctx, s, i, bag, prop_u32(PropertyType::WillDelayInterval, v));
}

/// Reading a section passes over the property `PayloadFormatIndicator` where it stands, if
/// it stands there, and keeps its value.
pub proof fn lemma_step_payload_format_indicator(
    ctx: PropCtx,
    s: Seq<u8>,
    i: int,
    bag: PropsView,
    v: Option<u8>,
)
    requires
        has_at(s, i, enc_opt(prop_u8(PropertyType::PayloadFormatIndicator, v))),
        allowed(ctx, PropertyType::PayloadFormatIndicator),
        bag.payload_format_indicator is None,
        v matches Some(x) ==> x <= 1,
    ensures
        dec_props_from(ctx, s, i, bag) == dec_props_from(
            ctx,
            s,
            i + enc_opt(prop_u8(PropertyType::PayloadFormatIndicator, v)).len(),
            PropsView { payload_format_indicator: v, ..bag },
        ),
{
    lemma_dec_props_step_opt(ctx, s, i, bag, prop_u8(PropertyType::PayloadFormatIndicator, v));
}

/// Reading a section passes over the property `MessageExpiryInterval` where it stands, if
/// it stands there, and keeps its value.
pub proof fn lemma_step_message_expiry_interval(
    ctx: PropCtx,
    s: Seq<u8>,
    i: int,
    bag: PropsView,
    v: Option<u32>,
)
    requires
        has_at(s, i, enc_opt(prop_u32(PropertyType::MessageExpiryInterval, v))),
        allowed(ctx, PropertyType::MessageExpiryInterval),
        bag.message_expiry_interval is None,
    ensures
        dec_props_from(ctx, s, i, bag) == dec_props_from(
            ctx,
            s,
            i + enc_opt(prop_u32(PropertyType::MessageExpiryInterval, v)).len(),
            PropsView { message_expiry_interval: v, ..bag },
        ),
{
    lemma_dec_props_step_opt(ctx, s, i, bag, prop_u32(PropertyType::MessageExpiryInterval, v));
}

/// Reading a section passes over the property `ContentType` where it stands, if
/// it stands there, and keeps its value.
pub proof fn lemma_step_content_type(
    ctx: PropCtx,
    s: Seq<u8>,
    i: int,
    bag: PropsView,
    v: Option<Seq<u8>>,
)
    requires
        has_at(s, i, enc_opt(prop_text(PropertyType::ContentType, v))),
        allowed(ctx, PropertyType::ContentType),
        bag.content_type is None,
        v matches Some(x) ==> x.len() <= FIELD_MAX && valid_utf8(x),
    ensures
        dec_props_from(ctx, s, i, bag) == dec_props_from(
            ctx,
            s,
            i + enc_opt(prop_text(PropertyType::ContentType, v)).len(),
            PropsView { content_type: v, ..bag },
        ),
{
    lemma_dec_props_step_opt(ctx, s, i, bag, prop_text(PropertyType::ContentType, v));
}

/// Reading a section passes over the property `ResponseTopic` where it stands, if
/// it stands there, and keeps its value.
pub proof fn lemma_step_response_topic(
    ctx: PropCtx,
    s: Seq<u8>,
    i: int,
    bag: PropsView,
    v: Option<Seq<u8>>,
)
    requires
        has_at(s, i, enc_opt(prop_text(PropertyType::ResponseTopic, v))),
        allowed(ctx, PropertyType::ResponseTopic),
        bag.response_topic is None,
        v matches Some(x) ==> x.len() <= FIELD_MAX && valid_utf8(x),
    ensures
        dec_props_from(ctx, s, i, bag) == dec_props_from(
            ctx,
            s,
            i + enc_opt(prop_text(PropertyType::ResponseTopic, v)).len(),
            PropsView { response_topic: v, ..bag },
        ),
{
    lemma_dec_props_step_opt(ctx, s, i, bag, prop_text(PropertyType::ResponseTopic, v));
}

/// Reading a section passes over the property `CorrelationData` where it stands, if
/// it stands there, and keeps its value.
pub proof fn lemma_step_correlation_data(
    ctx: PropCtx,
    s: Seq<u8>,
    i: int,
    bag: PropsView,
    v: Option<Seq<u8>>,
)
    requires
        has_at(s, i, enc_opt(prop_binary(PropertyType::CorrelationData, v))),
        allowed(ctx, PropertyType::CorrelationData),
        bag.correlation_data is None,
        v matches Some(x) ==> x.len() <= FIELD_MAX,
    ensures
        dec_props_from(ctx, s, i, bag) == dec_props_from(
            ctx,
            s,
            i + enc_opt(prop_binary(PropertyType::CorrelationData, v)).len(),
            PropsView { correlation_data: v, ..bag },
        ),
{
    lemma_dec_props_step_opt(ctx, s, i, bag, prop_binary(PropertyType::CorrelationData, v));
}

/// Reading a section passes over the property `SubscriptionIdentifier` where it stands, if
/// it stands there, and keeps its value.
pub proof fn lemma_step_subscription_id(
    ctx: PropCtx,
    s: Seq<u8>,
    i: int,
    bag: PropsView,
    v: Option<u32>,
)
    requires
        has_at(s, i, enc_opt(prop_varint(PropertyType::SubscriptionIdentifier, v))),
        allowed(ctx, PropertyType::SubscriptionIdentifier),
        bag.subscription_id is None,
        v matches Some(x) ==> x != 0 && x <= VARU32_MAX,
    ensures
        dec_props_from(ctx, s, i, bag) == dec_props_from(
            ctx,
            s,
            i + enc_opt(prop_varint(PropertyType::SubscriptionIdentifier, v)).len(),
            PropsView { subscription_id: v, ..bag },
        ),
{
    lemma_dec_props_step_opt(ctx, s, i, bag, prop_varint(PropertyType::SubscriptionIdentifier, v));
}

/// Reading a section passes over the property `ReasonString` where it stands, if
/// it stands there, and keeps its value.
pub proof fn lemma_step_reason_string(
    ctx: PropCtx,
    s: Seq<u8>,
    i: int,
    bag: PropsView,
    v: Option<Seq<u8>>,
)
    requires
        has_at(s, i, enc_opt(prop_text(PropertyType::ReasonString, v))),
        allowed(ctx, PropertyType::ReasonString),
        bag.reason_string is None,
        v matches Some(x) ==> x.len() <= FIELD_MAX && valid_utf8(x),
    ensures
        dec_props_from(ctx, s, i, bag) == dec_props_from(
            ctx,
            s,
            i + enc_opt(prop_text(PropertyType::ReasonString, v)).len(),
            PropsView { reason_string: v, ..bag },
        ),
{
    lemma_dec_props_step_opt(ctx, s, i, bag, prop_text(PropertyType::ReasonString, v));
}

/// Reading a section passes over the property `TopicAlias` where it stands, if
/// it stands there, and keeps its value.
pub proof fn lemma_step_topic_alias(
    ctx: PropCtx,
    s: Seq<u8>,
    i: int,
    bag: PropsView,
    v: Option<u16>,
)
    requires
        has_at(s, i, enc_opt(prop_u16(PropertyType::TopicAlias, v))),
        allowed(ctx, PropertyType::TopicAlias),
        bag.topic_alias is None,
        v matches Some(x) ==> x != 0,
    ensures
        dec_props_from(ctx, s, i, bag) == dec_props_from(
            ctx,
            s,
            i + enc_opt(prop_u16(PropertyType::TopicAlias, v)).len(),
            PropsView { topic_alias: v, ..bag },
        ),
{
    lemma_dec_props_step_opt(ctx, s, i, bag, prop_u16(PropertyType::TopicAlias, v));
}

/// Reading a section passes over the property `MaximumQoS` where it stands, if
/// it stands there, and keeps its value.
pub proof fn lemma_step_maximum_qos(
    ctx: PropCtx,
    s: Seq<u8>,
    i: int,
    bag: PropsView,
    v: Option<u8>,
)
    requires
        has_at(s, i, enc_opt(prop_u8(PropertyType::MaximumQoS, v))),
        allowed(ctx, PropertyType::MaximumQoS),
        bag.maximum_qos is None,
        v matches Some(x) ==> x <= 1,
    ensures
        dec_props_from(ctx, s, i, bag) == dec_props_from(
            ctx,
            s,
            i + enc_opt(prop_u8(PropertyType::MaximumQoS, v)).len(),
            PropsView { maximum_qos: v, ..bag },
        ),
{
    lemma_dec_props_step_opt(ctx, s, i, bag, prop_u8(PropertyType::MaximumQoS, v));
}

/// Reading a section passes over the property `RetainAvailable` where it stands, if
/// it stands there, and keeps its value.
pub proof fn lemma_step_retain_available(
    ctx: PropCtx,
    s: Seq<u8>,
    i: int,
    bag: PropsView,
    v: Option<u8>,
)
    requires
        has_at(s, i, enc_opt(prop_u8(PropertyType::RetainAvailable, v))),
        allowed(ctx, PropertyType::RetainAvailable),
        bag.retain_available is None,
        v matches Some(x) ==> x <= 1,
    ensures
        dec_props_from(ctx, s, i, bag) == dec_props_from(
            ctx,
            s,
            i + enc_opt(prop_u8(PropertyType::RetainAvailable, v)).len(),
            PropsView { retain_available: v, ..bag },
        ),
{
    lemma_dec_props_step_opt(ctx, s, i, bag, prop_u8(PropertyType::RetainAvailable, v));
}

/// Reading a section passes over the property `AssignedClientIdentifier` where it stands, if
/// it stands there, and keeps its value.
pub proof fn lemma_step_assigned_client_identifier(
    ctx: PropCtx,
    s: Seq<u8>,
    i: int,
    bag: PropsView,
    v: Option<Seq<u8>>,
)
    requires
        has_at(s, i, enc_opt(prop_text(PropertyType::AssignedClientIdentifier, v))),
        allowed(ctx, PropertyType::AssignedClientIdentifier),
        bag.assigned_client_identifier is None,
        v matches Some(x) ==> x.len() <= FIELD_MAX && valid_utf8(x),
    ensures
        dec_props_from(ctx, s, i, bag) == dec_props_from(
            ctx,
            s,
            i + enc_opt(prop_text(PropertyType::AssignedClientIdentifier, v)).len(),
            PropsView { assigned_client_identifier: v, ..bag },
        ),
{
    lemma_dec_props_step_opt(ctx, s, i, bag, prop_text(PropertyType::AssignedClientIdentifier, v));
}

/// Reading a section passes over the property `WildcardSubscriptionAvailable` where it stands, if
/// it stands there, and keeps its value.
pub proof fn lemma_step_wildcard_subscription_available(
    ctx: PropCtx,
    s: Seq<u8>,
    i: int,
    bag: PropsView,
    v: Option<u8>,
)
    requires
        has_at(s, i, enc_opt(prop_u8(PropertyType::WildcardSubscriptionAvailable, v))),
        allowed(ctx, PropertyType::WildcardSubscriptionAvailable),
        bag.wildcard_subscription_available is None,
        v matches Some(x) ==> x <= 1,
    ensures
        dec_props_from(ctx, s, i, bag) == dec_props_from(
            ctx,
            s,
            i + enc_opt(prop_u8(PropertyType::WildcardSubscriptionAvailable, v)).len(),
            PropsView { wildcard_subscription_available: v, ..bag },
        ),
{
    lemma_dec_props_step_opt(ctx, s, i, bag, prop_u8(PropertyType::WildcardSubscriptionAvailable, v));
}

/// Reading a section passes over the property `SubscriptionIdentifierAvailable` where it stands, if
/// it stands there, and keeps its value.
pub proof fn lemma_step_subscription_identifiers_available(
    ctx: PropCtx,
    s: Seq<u8>,
    i: int,
    bag: PropsView,
    v: Option<u8>,
)
    requires
        has_at(s, i, enc_opt(prop_u8(PropertyType::SubscriptionIdentifierAvailable, v))),
        allowed(ctx, PropertyType::SubscriptionIdentifierAvailable),
        bag.subscription_identifiers_available is None,
        v matches Some(x) ==> x <= 1,
    ensures
        dec_props_from(ctx, s, i, bag) == dec_props_from(
            ctx,
            s,
            i + enc_opt(prop_u8(PropertyType::SubscriptionIdentifierAvailable, v)).len(),
            PropsView { subscription_identifiers_available: v, ..bag },
        ),
{
    lemma_dec_props_step_opt(ctx, s, i, bag, prop_u8(PropertyType::SubscriptionIdentifierAvailable, v));
}

/// Reading a section passes over the property `SharedSubscriptionAvailable` where it stands, if
/// it stands there, and keeps its value.
pub proof fn lemma_step_shared_subscription_available(
    ctx: PropCtx,
    s: Seq<u8>,
    i: int,
    bag: PropsView,
    v: Option<u8>,
)
    requires
        has_at(s, i, enc_opt(prop_u8(PropertyType::SharedSubscriptionAvailable, v))),
        allowed(ctx, PropertyType::SharedSubscriptionAvailable),
        bag.shared_subscription_available is None,
        v matches Some(x) ==> x <= 1,
    ensures
        dec_props_from(ctx, s, i, bag) == dec_props_from(
            ctx,
            s,
            i + enc_opt(prop_u8(PropertyType::SharedSubscriptionAvailable, v)).len(),
            PropsView { shared_subscription_available: v, ..bag },
        ),
{
    lemma_dec_props_step_opt(ctx, s, i, bag, prop_u8(PropertyType::SharedSubscriptionAvailable, v));
}

/// Reading a section passes over the property `ServerKeepAlive` where it stands, if
/// it stands there, and keeps its value.
pub proof fn lemma_step_server_keep_alive(
    ctx: PropCtx,
    s: Seq<u8>,
    i: int,
    bag: PropsView,
    v: Option<u16>,
)
    requires
        has_at(s, i, enc_opt(prop_u16(PropertyType::ServerKeepAlive, v))),
        allowed(ctx, PropertyType::ServerKeepAlive),
        bag.server_keep_alive is None,
    ensures
        dec_props_from(ctx, s, i, bag) == dec_props_from(
            ctx,
            s,
            i + enc_opt(prop_u16(PropertyType::ServerKeepAlive, v)).len(),
            PropsView { server_keep_alive: v, ..bag },
        ),
{
    lemma_dec_props_step_opt(ctx, s, i, bag, prop_u16(PropertyType::ServerKeepAlive, v));
}

/// Reading a section passes over the property `ResponseInformation` where it stands, if
/// it stands there, and keeps its value.
pub proof fn lemma_step_response_information(
    ctx: PropCtx,
    s: Seq<u8>,
    i: int,
    bag: PropsView,
    v: Option<Seq<u8>>,
)
    requires
        has_at(s, i, enc_opt(prop_text(PropertyType::ResponseInformation, v))),
        allowed(ctx, PropertyType::ResponseInformation),
        bag.response_information is None,
        v matches Some(x) ==> x.len() <= FIELD_MAX && valid_utf8(x),
    ensures
        dec_props_from(ctx, s, i, bag) == dec_props_from(
            ctx,
            s,
            i + enc_opt(prop_text(PropertyType::ResponseInformation, v)).len(),
            PropsView { response_information: v, ..bag },
        ),
{
    lemma_dec_props_step_opt(ctx, s, i, bag, prop_text(PropertyType::ResponseInformation, v));
}

/// Reading a section passes over the property `ServerReference` where it stands, if
/// it stands there, and keeps its value.
pub proof fn lemma_step_server_reference(
    ctx: PropCtx,
    s: Seq<u8>,
    i: int,
    bag: PropsView,
    v: Option<Seq<u8>>,
)
    requires
        has_at(s, i, enc_opt(prop_text(PropertyType::ServerReference, v))),
        allowed(ctx, PropertyType::ServerReference),
        bag.server_reference is None,
        v matches Some(x) ==> x.len() <= FIELD_MAX && valid_utf8(x),
    ensures
        dec_props_from(ctx, s, i, bag) == dec_props_from(
            ctx,
            s,
            i + enc_opt(prop_text(PropertyType::ServerReference, v)).len(),
            PropsView { server_reference: v, ..bag },
        ),
{
    lemma_dec_props_step_opt(ctx, s, i, bag, prop_text(PropertyType::ServerReference, v));
}

/// A variable-byte integer that was read takes, in its shortest form, no
/// more bytes than were read.
pub proof fn lemma_varu32_shortest(s: Seq<u8>, i: int)
    ensures
        dec_varu32(s, i) matches Ok((v, j)) ==> v <= VARU32_MAX && enc_varu32(v).len() <= j - i
            && i < j <= s.len() && (v < 128 ==> enc_varu32(v).len() == 1),
{
}

/// A value that was read is well-formed and takes, written again, no more
/// bytes than were read.
pub proof fn lemma_dec_value_wf(kind: ValueKind, s: Seq<u8>, i: int)
    ensures
        PropValueView::dec(kind, s, i) matches Ok((v, j)) ==> v.kind() == kind && v.fits()
            && v.text_valid() && 1 <= v.enc().len() <= j - i && j <= s.len(),
{
    lemma_enc_dec_bytes(s, i);
    lemma_varu32_shortest(s, i);
    if kind == ValueKind::TextPair {
        if let Ok((k, j)) = dec_string(s, i) {
            lemma_enc_dec_bytes(s, j);
        }
    }
}

/// A property that was read is well-formed and takes, written again, no more
/// bytes than were read.
pub proof fn lemma_dec_property_wf(s: Seq<u8>, i: int)
    ensures
        PropertyView::dec(s, i) matches Ok((p, j)) ==> p.wf() && 2 <= p.enc().len() <= j - i && j
            <= s.len(),
{
    reveal(PropertyView::dec);
    lemma_varu32_shortest(s, i);
    if let Ok((id, j)) = dec_varu32(s, i) {
        if let Some(t) = PropertyType::spec_from_id(id) {
            lemma_dec_value_wf(t.spec_kind(), s, j);
        }
    }
}

/// The user properties with one more take the bytes of that one more.
pub proof fn lemma_enc_users_push(us: Seq<(Seq<u8>, Seq<u8>)>, u: (Seq<u8>, Seq<u8>))
    ensures
        enc_users(us.push(u)) == enc_users(us) + user_prop(u).enc(),
{
    assert(us.push(u).drop_last() =~= us);
}

/// A valid section stays valid when it takes the property `SessionExpiryInterval`, is then
/// not empty, and has grown by the bytes of the property.
proof fn lemma_put_session_expiry_interval(ctx: PropCtx, bag: PropsView, v: u32)
    requires
        bag.valid_for(ctx),
        bag.session_expiry_interval is None,
        allowed(ctx, PropertyType::SessionExpiryInterval),
    ensures
        (PropsView { session_expiry_interval: Some(v), ..bag }).valid_for(ctx),
        !(PropsView { session_expiry_interval: Some(v), ..bag }).is_empty(),
        (PropsView { session_expiry_interval: Some(v), ..bag }).size() == bag.size() + enc_opt(
            prop_u32(PropertyType::SessionExpiryInterval, Some(v)),
        ).len(),
{
}

/// A valid section stays valid when it takes the property `ReceiveMaximum`, is then
/// not empty, and has grown by the bytes of the property.
proof fn lemma_put_receive_maximum(ctx: PropCtx, bag: PropsView, v: u16)
    requires
        bag.valid_for(ctx),
        bag.receive_maximum is None,
        allowed(ctx, PropertyType::ReceiveMaximum),
        v != 0,
    ensures
        (PropsView { receive_maximum: Some(v), ..bag }).valid_for(ctx),
        !(PropsView { receive_maximum: Some(v), ..bag }).is_empty(),
        (PropsView { receive_maximum: Some(v), ..bag }).size() == bag.size() + enc_opt(
            prop_u16(PropertyType::ReceiveMaximum, Some(v)),
        ).len(),
{
}

/// A valid section stays valid when it takes the property `MaximumPacketSize`, is then
/// not empty, and has grown by the bytes of the property.
proof fn lemma_put_max_packet_size(ctx: PropCtx, bag: PropsView, v: u32)
    requires
        bag.valid_for(ctx),
        bag.max_packet_size is None,
        allowed(ctx, PropertyType::MaximumPacketSize),
        v != 0,
    ensures
        (PropsView { max_packet_size: Some(v), ..bag }).valid_for(ctx),
        !(PropsView { max_packet_size: Some(v), ..bag }).is_empty(),
        (PropsView { max_packet_size: Some(v), ..bag }).size() == bag.size() + enc_opt(
            prop_u32(PropertyType::MaximumPacketSize, Some(v)),
        ).len(),
{
}

/// A valid section stays valid when it takes the property `TopicAliasMaximum`, is then
/// not empty, and has grown by the bytes of the property.
proof fn lemma_put_topic_alias_max(ctx: PropCtx, bag: PropsView, v: u16)
    requires
        bag.valid_for(ctx),
        bag.topic_alias_max is None,
        allowed(ctx, PropertyType::TopicAliasMaximum),
    ensures
        (PropsView { topic_alias_max: Some(v), ..bag }).valid_for(ctx),
        !(PropsView { topic_alias_max: Some(v), ..bag }).is_empty(),
        (PropsView { topic_alias_max: Some(v), ..bag }).size() == bag.size() + enc_opt(
            prop_u16(PropertyType::TopicAliasMaximum, Some(v)),
        ).len(),
{
}

/// A valid section stays valid when it takes the property `RequestResponseInformation`, is then
/// not empty, and has grown by the bytes of the property.
proof fn lemma_put_request_response_info(ctx: PropCtx, bag: PropsView, v: u8)
    requires
        bag.valid_for(ctx),
        bag.request_response_info is None,
        allowed(ctx, PropertyType::RequestResponseInformation),
        v <= 1,
    ensures
        (PropsView { request_response_info: Some(v), ..bag }).valid_for(ctx),
        !(PropsView { request_response_info: Some(v), ..bag }).is_empty(),
        (PropsView { request_response_info: Some(v), ..bag }).size() == bag.size() + enc_opt(
            prop_u8(PropertyType::RequestResponseInformation, Some(v)),
        ).len(),
{
}

/// A valid section stays valid when it takes the property `RequestProblemInformation`, is then
/// not empty, and has grown by the bytes of the property.
proof fn lemma_put_request_problem_info(ctx: PropCtx, bag: PropsView, v: u8)
    requires
        bag.valid_for(ctx),
        bag.request_problem_info is None,
        allowed(ctx, PropertyType::RequestProblemInformation),
        v <= 1,
    ensures
        (PropsView { request_problem_info: Some(v), ..bag }).valid_for(ctx),
        !(PropsView { request_problem_info: Some(v), ..bag }).is_empty(),
        (PropsView { request_problem_info: Some(v), ..bag }).size() == bag.size() + enc_opt(
            prop_u8(PropertyType::RequestProblemInformation, Some(v)),
        ).len(),
{
}

/// A valid section stays valid when it takes the property `AuthenticationMethod`, is then
/// not empty, and has grown by the bytes of the property.
proof fn lemma_put_authentication_method(ctx: PropCtx, bag: PropsView, v: Seq<u8>)
    requires
        bag.valid_for(ctx),
        bag.authentication_method is None,
        allowed(ctx, PropertyType::AuthenticationMethod),
        v.len() <= FIELD_MAX && valid_utf8(v),
    ensures
        (PropsView { authentication_method: Some(v), ..bag }).valid_for(ctx),
        !(PropsView { authentication_method: Some(v), ..bag }).is_empty(),
        (PropsView { authentication_method: Some(v), ..bag }).size() == bag.size() + enc_opt(
            prop_text(PropertyType::AuthenticationMethod, Some(v)),
        ).len(),
{
}

/// A valid section stays valid when it takes the property `AuthenticationData`, is then
/// not empty, and has grown by the bytes of the property.
proof fn lemma_put_authentication_data(ctx: PropCtx, bag: PropsView, v: Seq<u8>)
    requires
        bag.valid_for(ctx),
        bag.authentication_data is None,
        allowed(ctx, PropertyType::AuthenticationData),
        v.len() <= FIELD_MAX,
    ensures
        (PropsView { authentication_data: Some(v), ..bag }).valid_for(ctx),
        !(PropsView { authentication_data: Some(v), ..bag }).is_empty(),
        (PropsView { authentication_data: Some(v), ..bag }).size() == bag.size() + enc_opt(
            prop_binary(PropertyType::AuthenticationData, Some(v)),
        ).len(),
{
}

/// A valid section stays valid when it takes the property `WillDelayInterval`, is then
/// not empty, and has grown by the bytes of the property.
proof fn lemma_put_will_delay_interval(ctx: PropCtx, bag: PropsView, v: u32)
    requires
        bag.valid_for(ctx),
        bag.will_delay_interval is None,
        allowed(ctx, PropertyType::WillDelayInterval),
    ensures
        (PropsView { will_delay_interval: Some(v), ..bag }).valid_for(ctx),
        !(PropsView { will_delay_interval: Some(v), ..bag }).is_empty(),
        (PropsView { will_delay_interval: Some(v), ..bag }).size() == bag.size() + enc_opt(
            prop_u32(PropertyType::WillDelayInterval, Some(v)),
        ).len(),
{
}

/// A valid section stays valid when it takes the property `PayloadFormatIndicator`, is then
/// not empty, and has grown by the bytes of the property.
proof fn lemma_put_payload_format_indicator(ctx: PropCtx, bag: PropsView, v: u8)
    requires
        bag.valid_for(ctx),
        bag.payload_format_indicator is None,
        allowed(ctx, PropertyType::PayloadFormatIndicator),
        v <= 1,
    ensures
        (PropsView { payload_format_indicator: Some(v), ..bag }).valid_for(ctx),
        !(PropsView { payload_format_indicator: Some(v), ..bag }).is_empty(),
        (PropsView { payload_format_indicator: Some(v), ..bag }).size() == bag.size() + enc_opt(
            prop_u8(PropertyType::PayloadFormatIndicator, Some(v)),
        ).len(),
{
}

/// A valid section stays valid when it takes the property `MessageExpiryInterval`, is then
/// not empty, and has grown by the bytes of the property.
proof fn lemma_put_message_expiry_interval(ctx: PropCtx, bag: PropsView, v: u32)
    requires
        bag.valid_for(ctx),
        bag.message_expiry_interval is None,
        allowed(ctx, PropertyType::MessageExpiryInterval),
    ensures
        (PropsView { message_expiry_interval: Some(v), ..bag }).valid_for(ctx),
        !(PropsView { message_expiry_interval: Some(v), ..bag }).is_empty(),
        (PropsView { message_expiry_interval: Some(v), ..bag }).size() == bag.size() + enc_opt(
            prop_u32(PropertyType::MessageExpiryInterval, Some(v)),
        ).len(),
{
}

/// A valid section stays valid when it takes the property `ContentType`, is then
/// not empty, and has grown by the bytes of the property.
proof fn lemma_put_content_type(ctx: PropCtx, bag: PropsView, v: Seq<u8>)
    requires
        bag.valid_for(ctx),
        bag.content_type is None,
        allowed(ctx, PropertyType::ContentType),
        v.len() <= FIELD_MAX && valid_utf8(v),
    ensures
        (PropsView { content_type: Some(v), ..bag }).valid_for(ctx),
        !(PropsView { content_type: Some(v), ..bag }).is_empty(),
        (PropsView { content_type: Some(v), ..bag }).size() == bag.size() + enc_opt(
            prop_text(PropertyType::ContentType, Some(v)),
        ).len(),
{
}

/// A valid section stays valid when it takes the property `ResponseTopic`, is then
/// not empty, and has grown by the bytes of the property.
proof fn lemma_put_response_topic(ctx: PropCtx, bag: PropsView, v: Seq<u8>)
    requires
        bag.valid_for(ctx),
        bag.response_topic is None,
        allowed(ctx, PropertyType::ResponseTopic),
        v.len() <= FIELD_MAX && valid_utf8(v),
    ensures
        (PropsView { response_topic: Some(v), ..bag }).valid_for(ctx),
        !(PropsView { response_topic: Some(v), ..bag }).is_empty(),
        (PropsView { response_topic: Some(v), ..bag }).size() == bag.size() + enc_opt(
            prop_text(PropertyType::ResponseTopic, Some(v)),
        ).len(),
{
}

/// A valid section stays valid when it takes the property `CorrelationData`, is then
/// not empty, and has grown by the bytes of the property.
proof fn lemma_put_correlation_data(ctx: PropCtx, bag: PropsView, v: Seq<u8>)
    requires
        bag.valid_for(ctx),
        bag.correlation_data is None,
        allowed(ctx, PropertyType::CorrelationData),
        v.len() <= FIELD_MAX,
    ensures
        (PropsView { correlation_data: Some(v), ..bag }).valid_for(ctx),
        !(PropsView { correlation_data: Some(v), ..bag }).is_empty(),
        (PropsView { correlation_data: Some(v), ..bag }).size() == bag.size() + enc_opt(
            prop_binary(PropertyType::CorrelationData, Some(v)),
        ).len(),
{
}

/// A valid section stays valid when it takes the property `SubscriptionIdentifier`, is then
/// not empty, and has grown by the bytes of the property.
proof fn lemma_put_subscription_id(ctx: PropCtx, bag: PropsView, v: u32)
    requires
        bag.valid_for(ctx),
        bag.subscription_id is None,
        allowed(ctx, PropertyType::SubscriptionIdentifier),
        v != 0 && v <= VARU32_MAX,
    ensures
        (PropsView { subscription_id: Some(v), ..bag }).valid_for(ctx),
        !(PropsView { subscription_id: Some(v), ..bag }).is_empty(),
        (PropsView { subscription_id: Some(v), ..bag }).size() == bag.size() + enc_opt(
            prop_varint(PropertyType::SubscriptionIdentifier, Some(v)),
        ).len(),
{
}

/// A valid section stays valid when it takes the property `ReasonString`, is then
/// not empty, and has grown by the bytes of the property.
proof fn lemma_put_reason_string(ctx: PropCtx, bag: PropsView, v: Seq<u8>)
    requires
        bag.valid_for(ctx),
        bag.reason_string is None,
        allowed(ctx, PropertyType::ReasonString),
        v.len() <= FIELD_MAX && valid_utf8(v),
    ensures
        (PropsView { reason_string: Some(v), ..bag }).valid_for(ctx),
        !(PropsView { reason_string: Some(v), ..bag }).is_empty(),
        (PropsView { reason_string: Some(v), ..bag }).size() == bag.size() + enc_opt(
            prop_text(PropertyType::ReasonString, Some(v)),
        ).len(),
{
}

/// A valid section stays valid when it takes the property `TopicAlias`, is then
/// not empty, and has grown by the bytes of the property.
proof fn lemma_put_topic_alias(ctx: PropCtx, bag: PropsView, v: u16)
    requires
        bag.valid_for(ctx),
        bag.topic_alias is None,
        allowed(ctx, PropertyType::TopicAlias),
        v != 0,
    ensures
        (PropsView { topic_alias: Some(v), ..bag }).valid_for(ctx),
        !(PropsView { topic_alias: Some(v), ..bag }).is_empty(),
        (PropsView { topic_alias: Some(v), ..bag }).size() == bag.size() + enc_opt(
            prop_u16(PropertyType::TopicAlias, Some(v)),
        ).len(),
{
}

/// A valid section stays valid when it takes the property `MaximumQoS`, is then
/// not empty, and has grown by the bytes of the property.
proof fn lemma_put_maximum_qos(ctx: PropCtx, bag: PropsView, v: u8)
    requires
        bag.valid_for(ctx),
        bag.maximum_qos is None,
        allowed(ctx, PropertyType::MaximumQoS),
        v <= 1,
    ensures
        (PropsView { maximum_qos: Some(v), ..bag }).valid_for(ctx),
        !(PropsView { maximum_qos: Some(v), ..bag }).is_empty(),
        (PropsView { maximum_qos: Some(v), ..bag }).size() == bag.size() + enc_opt(
            prop_u8(PropertyType::MaximumQoS, Some(v)),
        ).len(),
{
}

/// A valid section stays valid when it takes the property `RetainAvailable`, is then
/// not empty, and has grown by the bytes of the property.
proof fn lemma_put_retain_available(ctx: PropCtx, bag: PropsView, v: u8)
    requires
        bag.valid_for(ctx),
        bag.retain_available is None,
        allowed(ctx, PropertyType::RetainAvailable),
        v <= 1,
    ensures
        (PropsView { retain_available: Some(v), ..bag }).valid_for(ctx),
        !(PropsView { retain_available: Some(v), ..bag }).is_empty(),
        (PropsView { retain_available: Some(v), ..bag }).size() == bag.size() + enc_opt(
            prop_u8(PropertyType::RetainAvailable, Some(v)),
        ).len(),
{
}

/// A valid section stays valid when it takes the property `AssignedClientIdentifier`, is then
/// not empty, and has grown by the bytes of the property.
proof fn lemma_put_assigned_client_identifier(ctx: PropCtx, bag: PropsView, v: Seq<u8>)
    requires
        bag.valid_for(ctx),
        bag.assigned_client_identifier is None,
        allowed(ctx, PropertyType::AssignedClientIdentifier),
        v.len() <= FIELD_MAX && valid_utf8(v),
    ensures
        (PropsView { assigned_client_identifier: Some(v), ..bag }).valid_for(ctx),
        !(PropsView { assigned_client_identifier: Some(v), ..bag }).is_empty(),
        (PropsView { assigned_client_identifier: Some(v), ..bag }).size() == bag.size() + enc_opt(
            prop_text(PropertyType::AssignedClientIdentifier, Some(v)),
        ).len(),
{
}

/// A valid section stays valid when it takes the property `WildcardSubscriptionAvailable`, is then
/// not empty, and has grown by the bytes of the property.
proof fn lemma_put_wildcard_subscription_available(ctx: PropCtx, bag: PropsView, v: u8)
    requires
        bag.valid_for(ctx),
        bag.wildcard_subscription_available is None,
        allowed(ctx, PropertyType::WildcardSubscriptionAvailable),
        v <= 1,
    ensures
        (PropsView { wildcard_subscription_available: Some(v), ..bag }).valid_for(ctx),
        !(PropsView { wildcard_subscription_available: Some(v), ..bag }).is_empty(),
        (PropsView { wildcard_subscription_available: Some(v), ..bag }).size() == bag.size() + enc_opt(
            prop_u8(PropertyType::WildcardSubscriptionAvailable, Some(v)),
        ).len(),
{
}

/// A valid section stays valid when it takes the property `SubscriptionIdentifierAvailable`, is then
/// not empty, and has grown by the bytes of the property.
proof fn lemma_put_subscription_identifiers_available(ctx: PropCtx, bag: PropsView, v: u8)
    requires
        bag.valid_for(ctx),
        bag.subscription_identifiers_available is None,
        allowed(ctx, PropertyType::SubscriptionIdentifierAvailable),
        v <= 1,
    ensures
        (PropsView { subscription_identifiers_available: Some(v), ..bag }).valid_for(ctx),
        !(PropsView { subscription_identifiers_available: Some(v), ..bag }).is_empty(),
        (PropsView { subscription_identifiers_available: Some(v), ..bag }).size() == bag.size() + enc_opt(
            prop_u8(PropertyType::SubscriptionIdentifierAvailable, Some(v)),
        ).len(),
{
}

/// A valid section stays valid when it takes the property `SharedSubscriptionAvailable`, is then
/// not empty, and has grown by the bytes of the property.
proof fn lemma_put_shared_subscription_available(ctx: PropCtx, bag: PropsView, v: u8)
    requires
        bag.valid_for(ctx),
        bag.shared_subscription_available is None,
        allowed(ctx, PropertyType::SharedSubscriptionAvailable),
        v <= 1,
    ensures
        (PropsView { shared_subscription_available: Some(v), ..bag }).valid_for(ctx),
        !(PropsView { shared_subscription_available: Some(v), ..bag }).is_empty(),
        (PropsView { shared_subscription_available: Some(v), ..bag }).size() == bag.size() + enc_opt(
            prop_u8(PropertyType::SharedSubscriptionAvailable, Some(v)),
        ).len(),
{
}

/// A valid section stays valid when it takes the property `ServerKeepAlive`, is then
/// not empty, and has grown by the bytes of the property.
proof fn lemma_put_server_keep_alive(ctx: PropCtx, bag: PropsView, v: u16)
    requires
        bag.valid_for(ctx),
        bag.server_keep_alive is None,
        allowed(ctx, PropertyType::ServerKeepAlive),
    ensures
        (PropsView { server_keep_alive: Some(v), ..bag }).valid_for(ctx),
        !(PropsView { server_keep_alive: Some(v), ..bag }).is_empty(),
        (PropsView { server_keep_alive: Some(v), ..bag }).size() == bag.size() + enc_opt(
            prop_u16(PropertyType::ServerKeepAlive, Some(v)),
        ).len(),
{
}

/// A valid section stays valid when it takes the property `ResponseInformation`, is then
/// not empty, and has grown by the bytes of the property.
proof fn lemma_put_response_information(ctx: PropCtx, bag: PropsView, v: Seq<u8>)
    requires
        bag.valid_for(ctx),
        bag.response_information is None,
        allowed(ctx, PropertyType::ResponseInformation),
        v.len() <= FIELD_MAX && valid_utf8(v),
    ensures
        (PropsView { response_information: Some(v), ..bag }).valid_for(ctx),
        !(PropsView { response_information: Some(v), ..bag }).is_empty(),
        (PropsView { response_information: Some(v), ..bag }).size() == bag.size() + enc_opt(
            prop_text(PropertyType::ResponseInformation, Some(v)),
        ).len(),
{
}

/// A valid section stays valid when it takes the property `ServerReference`, is then
/// not empty, and has grown by the bytes of the property.
proof fn lemma_put_server_reference(ctx: PropCtx, bag: PropsView, v: Seq<u8>)
    requires
        bag.valid_for(ctx),
        bag.server_reference is None,
        allowed(ctx, PropertyType::ServerReference),
        v.len() <= FIELD_MAX && valid_utf8(v),
    ensures
        (PropsView { server_reference: Some(v), ..bag }).valid_for(ctx),
        !(PropsView { server_reference: Some(v), ..bag }).is_empty(),
        (PropsView { server_reference: Some(v), ..bag }).size() == bag.size() + enc_opt(
            prop_text(PropertyType::ServerReference, Some(v)),
        ).len(),
{
}

/// A section that is valid stays so when it takes in a well-formed property,
/// is then not empty, and has grown by the bytes of that property.
#[verifier::rlimit(40)]
pub proof fn lemma_accept_keeps_valid(ctx: PropCtx, bag: PropsView, p: PropertyView)
    requires
        bag.valid_for(ctx),
        p.wf(),
        bag.accept(ctx, p) is Ok,
    ensures
        bag.accept(ctx, p)->Ok_0.valid_for(ctx),
        !bag.accept(ctx, p)->Ok_0.is_empty(),
        bag.accept(ctx, p)->Ok_0.size() == bag.size() + p.enc().len(),
{
    reveal(PropsView::accept);
    let out = bag.accept(ctx, p)->Ok_0;
    assert(out == bag.put(p));
    assert(allowed(ctx, p.typ) && !bag.has(p.typ) && p.value_ok() is Ok);
    match (p.typ, p.value) {
        (PropertyType::UserProp, PropValueView::TextPair(k, v)) => {
            lemma_enc_users_push(bag.user_properties, (k, v));
            assert(user_prop((k, v)) == p);
            assert forall|j: int| 0 <= j < out.user_properties.len() implies (#[trigger] user_prop(
                out.user_properties[j],
            )).wf() by {
                if j < bag.user_properties.len() {
                    assert(out.user_properties[j] == bag.user_properties[j]);
                }
            }
        },
        (PropertyType::SessionExpiryInterval, PropValueView::FourByte(v)) => {
            lemma_put_session_expiry_interval(ctx, bag, v);
        },
        (PropertyType::ReceiveMaximum, PropValueView::TwoByte(v)) => {
            lemma_put_receive_maximum(ctx, bag, v);
        },
        (PropertyType::MaximumPacketSize, PropValueView::FourByte(v)) => {
            lemma_put_max_packet_size(ctx, bag, v);
        },
        (PropertyType::TopicAliasMaximum, PropValueView::TwoByte(v)) => {
            lemma_put_topic_alias_max(ctx, bag, v);
        },
        (PropertyType::RequestResponseInformation, PropValueView::Byte(v)) => {
            lemma_put_request_response_info(ctx, bag, v);
        },
        (PropertyType::RequestProblemInformation, PropValueView::Byte(v)) => {
            lemma_put_request_problem_info(ctx, bag, v);
        },
        (PropertyType::AuthenticationMethod, PropValueView::Text(v)) => {
            lemma_put_authentication_method(ctx, bag, v);
        },
        (PropertyType::AuthenticationData, PropValueView::Binary(v)) => {
            lemma_put_authentication_data(ctx, bag, v);
        },
        (PropertyType::WillDelayInterval, PropValueView::FourByte(v)) => {
            lemma_put_will_delay_interval(ctx, bag, v);
        },
        (PropertyType::PayloadFormatIndicator, PropValueView::Byte(v)) => {
            lemma_put_payload_format_indicator(ctx, bag, v);
        },
        (PropertyType::MessageExpiryInterval, PropValueView::FourByte(v)) => {
            lemma_put_message_expiry_interval(ctx, bag, v);
        },
        (PropertyType::ContentType, PropValueView::Text(v)) => {
            lemma_put_content_type(ctx, bag, v);
        },
        (PropertyType::ResponseTopic, PropValueView::Text(v)) => {
            lemma_put_response_topic(ctx, bag, v);
        },
        (PropertyType::CorrelationData, PropValueView::Binary(v)) => {
            lemma_put_correlation_data(ctx, bag, v);
        },
        (PropertyType::SubscriptionIdentifier, PropValueView::VarInt(v)) => {
            lemma_put_subscription_id(ctx, bag, v);
        },
        (PropertyType::ReasonString, PropValueView::Text(v)) => {
            lemma_put_reason_string(ctx, bag, v);
        },
        (PropertyType::TopicAlias, PropValueView::TwoByte(v)) => {
            lemma_put_topic_alias(ctx, bag, v);
        },
        (PropertyType::MaximumQoS, PropValueView::Byte(v)) => {
            lemma_put_maximum_qos(ctx, bag, v);
        },
        (PropertyType::RetainAvailable, PropValueView::Byte(v)) => {
            lemma_put_retain_available(ctx, bag, v);
        },
        (PropertyType::AssignedClientIdentifier, PropValueView::Text(v)) => {
            lemma_put_assigned_client_identifier(ctx, bag, v);
        },
        (PropertyType::WildcardSubscriptionAvailable, PropValueView::Byte(v)) => {
            lemma_put_wildcard_subscription_available(ctx, bag, v);
        },
        (PropertyType::SubscriptionIdentifierAvailable, PropValueView::Byte(v)) => {
            lemma_put_subscription_identifiers_available(ctx, bag, v);
        },
        (PropertyType::SharedSubscriptionAvailable, PropValueView::Byte(v)) => {
            lemma_put_shared_subscription_available(ctx, bag, v);
        },
        (PropertyType::ServerKeepAlive, PropValueView::TwoByte(v)) => {
            lemma_put_server_keep_alive(ctx, bag, v);
        },
        (PropertyType::ResponseInformation, PropValueView::Text(v)) => {
            lemma_put_response_information(ctx, bag, v);
        },
        (PropertyType::ServerReference, PropValueView::Text(v)) => {
            lemma_put_server_reference(ctx, bag, v);
        },
        _ => {
            assert(false);
        },
    }
}

/// What is read into a valid section is a valid section; written again in
/// the shortest form, it takes no more bytes than were read; and it is not
/// empty if anything was read.
#[verifier::rlimit(40)]
pub proof fn lemma_dec_props_valid(ctx: PropCtx, s: Seq<u8>, i: int, bag: PropsView)
    requires
        bag.valid_for(ctx),
        0 <= i,
        dec_props_from(ctx, s, i, bag) is Ok,
    ensures
        ({
            let out = dec_props_from(ctx, s, i, bag)->Ok_0;
            &&& out.valid_for(ctx)
            &&& bag.size() <= out.size() <= bag.size() + if i < s.len() {
                s.len() - i
            } else {
                0
            }
            &&& (i < s.len() || !bag.is_empty() ==> !out.is_empty())
        }),
    decreases s.len() - i,
{
    if i < s.len() {
        lemma_dec_property_wf(s, i);
        let (p, j) = PropertyView::dec(s, i)->Ok_0;
        lemma_accept_keeps_valid(ctx, bag, p);
        lemma_dec_props_valid(ctx, s, j, bag.accept(ctx, p)->Ok_0);
    }
}

/// The number of bytes of a section whose properties take `size` bytes.
pub open spec fn section_size(size: int) -> int {
    varu32_len(size as u32) + size
}

/// The properties of a section that was read are valid for the section; they
/// are absent exactly when the section has the length 0; and a section with
/// the same properties in their shortest form, or with fewer bytes of
/// properties, takes no more bytes than the section had.
#[verifier::rlimit(40)]
pub proof fn lemma_dec_section_valid(ctx: PropCtx, s: Seq<u8>, i: int)
    ensures
        dec_section(ctx, s, i) matches Ok((bag, n)) ==> bag.valid_for(ctx) && 0 <= bag.size()
            <= VARU32_MAX && (forall|x: int|
            0 <= x <= bag.size() ==> #[trigger] section_size(x) <= n - i),
        dec_opt_section(ctx, s, i) matches Ok((Some(bag), n)) ==> bag.valid_for(ctx)
            && !bag.is_empty() && 0 <= bag.size() <= VARU32_MAX && (forall|x: int|
            0 <= x <= bag.size() ==> #[trigger] section_size(x) <= n - i),
        dec_opt_section(ctx, s, i) matches Ok((None, n)) ==> section_size(0) <= n - i,
        dec_opt_section(ctx, s, i) matches Ok((ob, n)) ==> i < n <= s.len(),
{
    lemma_varu32_shortest(s, i);
    if let Ok((len, j)) = dec_varu32(s, i) {
        if j + len <= s.len() {
            let t = s.subrange(0, j + len);
            assert(PropsView::empty().size() == 0) by {
                assert(enc_users(Seq::<(Seq<u8>, Seq<u8>)>::empty()) =~= Seq::<u8>::empty());
            }
            if dec_props_from(ctx, t, j, PropsView::empty()) is Ok {
                lemma_dec_props_valid(ctx, t, j, PropsView::empty());
                let bag = dec_props_from(ctx, t, j, PropsView::empty())->Ok_0;
                assert forall|x: int| 0 <= x <= bag.size() implies #[trigger] section_size(x) <= j
                    + len - i by {
                    assert(x <= len);
                    assert(varu32_len(x as u32) <= varu32_len(len));
                    assert(enc_varu32(len).len() == varu32_len(len));
                }
            }
        }
    }
}

/// Where a section with the properties `body` stands, its length is read as
/// the length of `body`, and `body` fills the section to its end.
pub proof fn lemma_section_frame(s: Seq<u8>, i: int, body: Seq<u8>)
    requires
        body.len() <= VARU32_MAX,
        has_at(s, i, enc_section(body)),
    ensures
        ({
            let j = i + varu32_len(body.len() as u32);
            let t = s.subrange(0, j + body.len());
            &&& dec_varu32(s, i) == Ok::<(u32, int), Error>((body.len() as u32, j))
            &&& enc_section(body).len() == varu32_len(body.len() as u32) + body.len()
            &&& j + body.len() <= s.len()
            &&& t.len() == j + body.len()
            &&& has_at(t, j, body)
        }),
{
    reveal(has_at);
    let len = body.len() as u32;
    let j = i + varu32_len(len);
    lemma_has_at_split(s, i, enc_varu32(len), body);
    lemma_dec_enc_varu32(s, i, len);
    let t = s.subrange(0, j + body.len());
    assert(t.subrange(j, j + body.len()) =~= s.subrange(j, j + body.len()));
}

} // verus!
