//! The PUBLISH packet.

use vstd::prelude::*;
use vstd::utf8::*;
use vstd::slice::*;
use crate::error::{Error, ErrorKind, ReasonCode, malformed, protocol_error};
use crate::wire::{
    enc_varu32, agrees_view, copy_range, dec_string, dec_u16, decode_string, decode_u16, enc_bytes,
    enc_u16, has_at, is_utf8, lemma_append_assoc, lemma_dec_enc_bytes, lemma_dec_enc_string,
    lemma_dec_enc_u16, lemma_has_at_split, lemma_has_at_start, put_raw, put_string, put_u16,
    varu32_len, FIELD_MAX, VARU32_MAX,
};
use crate::v5::{
    lemma_dec_enc_fixed_header, opt_bin_view, opt_str_view, publish_byte, spec_unwrap_first_byte,
    user_props_view, FixedHeader, PacketID, PacketType, PayloadFormat, QoS, TopicName, UserProperty,
    VarU32,
};
use crate::v5::connect::{
    byte_format, check_users_fit, format_byte, lemma_users_nonempty, opt_topic_str, opt_topic_view,
};
use crate::v5::property::{
    dec_opt_section, dec_section, enc_opt, enc_section, enc_users, lemma_dec_props_users,
    lemma_dec_section_valid, section_size, lemma_section_frame, lemma_step_content_type,
    lemma_step_correlation_data, lemma_step_message_expiry_interval,
    lemma_step_payload_format_indicator, lemma_step_response_topic, lemma_step_subscription_id,
    lemma_step_topic_alias, opt_fits, opt_str, prop_binary, prop_text, prop_u16, prop_u32, prop_u8,
    prop_varint, put_prop_binary, put_prop_text, put_prop_u16, put_prop_u32, put_prop_u8,
    put_prop_varint, put_user_props, users_fit, users_wf, PropBag, PropCtx, PropertyType, PropsView,
};
use crate::v5::pubaclc::wrap_section;
use crate::v5::sub::opt_varu32_view;

verus! {

/// The error for a payload that is declared to be UTF-8 and is not.
pub open spec fn payload_format_invalid() -> Error {
    Error { kind: ErrorKind::ProtocolError, code: ReasonCode::PayloadFormatInvalid }
}

/// Collection of MQTT properties allowed in a PUBLISH packet.
#[derive(Clone, Eq, PartialEq, Debug)]
pub struct PublishProperties {
    /// "Binary" unless the sender says otherwise.
    pub payload_format_indicator: PayloadFormat,
    pub message_expiry_interval: Option<u32>,
    /// Not 0.
    pub topic_alias: Option<u16>,
    pub response_topic: Option<TopicName>,
    pub correlation_data: Option<Vec<u8>>,
    /// Not 0.
    pub subscription_id: Option<VarU32>,
    pub content_type: Option<String>,
    pub user_properties: Vec<UserProperty>,
}

/// The properties of a PUBLISH, with text as its bytes.
pub ghost struct PublishPropertiesView {
    pub payload_format_indicator: PayloadFormat,
    pub message_expiry_interval: Option<u32>,
    pub topic_alias: Option<u16>,
    pub response_topic: Option<Seq<u8>>,
    pub correlation_data: Option<Seq<u8>>,
    pub subscription_id: Option<u32>,
    pub content_type: Option<Seq<u8>>,
    pub user_properties: Seq<(Seq<u8>, Seq<u8>)>,
}

impl View for PublishProperties {
    type V = PublishPropertiesView;

    open spec fn view(&self) -> PublishPropertiesView {
        PublishPropertiesView {
            payload_format_indicator: self.payload_format_indicator,
            message_expiry_interval: self.message_expiry_interval,
            topic_alias: self.topic_alias,
            response_topic: opt_topic_view(self.response_topic),
            correlation_data: opt_bin_view(self.correlation_data),
            subscription_id: opt_varu32_view(self.subscription_id),
            content_type: opt_str_view(self.content_type),
            user_properties: user_props_view(self.user_properties@),
        }
    }
}

impl PublishPropertiesView {
    pub open spec fn from_bag(bag: PropsView) -> PublishPropertiesView {
        PublishPropertiesView {
            payload_format_indicator: byte_format(bag.payload_format_indicator),
            message_expiry_interval: bag.message_expiry_interval,
            topic_alias: bag.topic_alias,
            response_topic: bag.response_topic,
            correlation_data: bag.correlation_data,
            subscription_id: bag.subscription_id,
            content_type: bag.content_type,
            user_properties: bag.user_properties,
        }
    }

    pub open spec fn to_bag(self) -> PropsView {
        PropsView {
            payload_format_indicator: format_byte(self.payload_format_indicator),
            message_expiry_interval: self.message_expiry_interval,
            topic_alias: self.topic_alias,
            response_topic: self.response_topic,
            correlation_data: self.correlation_data,
            subscription_id: self.subscription_id,
            content_type: self.content_type,
            user_properties: self.user_properties,
            ..PropsView::empty()
        }
    }

    pub open spec fn is_empty(self) -> bool {
        &&& self.payload_format_indicator == PayloadFormat::Binary
        &&& self.message_expiry_interval is None
        &&& self.topic_alias is None
        &&& self.response_topic is None
        &&& self.correlation_data is None
        &&& self.subscription_id is None
        &&& self.content_type is None
        &&& self.user_properties.len() == 0
    }

    /// Every value is short enough to be written.
    pub open spec fn fits(self) -> bool {
        &&& opt_fits(prop_text(PropertyType::ResponseTopic, self.response_topic))
        &&& opt_fits(prop_binary(PropertyType::CorrelationData, self.correlation_data))
        &&& opt_fits(prop_varint(PropertyType::SubscriptionIdentifier, self.subscription_id))
        &&& opt_fits(prop_text(PropertyType::ContentType, self.content_type))
        &&& users_fit(self.user_properties)
    }

    /// A topic alias and a subscription identifier, where given, are not 0.
    pub open spec fn spec_validate(self) -> Result<(), Error> {
        if self.topic_alias == Some(0u16) || self.subscription_id == Some(0u32) {
            Err(protocol_error())
        } else {
            Ok(())
        }
    }

    /// Every value keeps the rules, can be written, and is UTF-8 where it is
    /// text.
    pub open spec fn wf(self) -> bool {
        &&& self.spec_validate() is Ok
        &&& self.fits()
        &&& (self.response_topic matches Some(m) ==> valid_utf8(m))
        &&& (self.content_type matches Some(m) ==> valid_utf8(m))
        &&& users_wf(self.user_properties)
    }

    /// The properties one behind the other, in the order of the fields; the
    /// payload format is written only where it is "UTF-8".
    #[verifier::opaque]
    pub open spec fn enc_body(self) -> Seq<u8> {
        enc_opt(
            prop_u8(PropertyType::PayloadFormatIndicator, format_byte(self.payload_format_indicator)),
        ) + enc_opt(prop_u32(PropertyType::MessageExpiryInterval, self.message_expiry_interval))
            + enc_opt(prop_u16(PropertyType::TopicAlias, self.topic_alias)) + enc_opt(
            prop_text(PropertyType::ResponseTopic, self.response_topic),
        ) + enc_opt(prop_binary(PropertyType::CorrelationData, self.correlation_data)) + enc_opt(
            prop_varint(PropertyType::SubscriptionIdentifier, self.subscription_id),
        ) + enc_opt(prop_text(PropertyType::ContentType, self.content_type)) + enc_users(
            self.user_properties,
        )
    }

    /// The properties section read at position `i`.
    pub open spec fn dec(s: Seq<u8>, i: int) -> Result<(PublishPropertiesView, int), Error> {
        match dec_section(PropCtx::Publish, s, i) {
            Err(e) => Err(e),
            Ok((bag, n)) => Ok((PublishPropertiesView::from_bag(bag), n)),
        }
    }
}

impl Default for PublishProperties {
    fn default() -> (p: PublishProperties)
        ensures
            p@.is_empty(),
    {
        PublishProperties {
            payload_format_indicator: PayloadFormat::Binary,
            message_expiry_interval: None,
            topic_alias: None,
            response_topic: None,
            correlation_data: None,
            subscription_id: None,
            content_type: None,
            user_properties: Vec::new(),
        }
    }
}

impl PublishProperties {
    fn from_bag(bag: PropBag) -> (p: PublishProperties)
        ensures
            p@ == PublishPropertiesView::from_bag(bag@),
    {
        PublishProperties {
            payload_format_indicator: match bag.payload_format_indicator {
                Some(1) => PayloadFormat::Utf8,
                _ => PayloadFormat::Binary,
            },
            message_expiry_interval: bag.message_expiry_interval,
            topic_alias: bag.topic_alias,
            response_topic: match bag.response_topic {
                Some(t) => Some(TopicName(t)),
                None => None,
            },
            correlation_data: bag.correlation_data,
            subscription_id: match bag.subscription_id {
                Some(v) => Some(VarU32(v)),
                None => None,
            },
            content_type: bag.content_type,
            user_properties: bag.user_properties,
        }
    }

    /// Whether no property is set.
    pub fn is_empty(&self) -> (b: bool)
        ensures
            b == self@.is_empty(),
    {
        !self.payload_format_indicator.is_utf8() && self.message_expiry_interval.is_none()
            && self.topic_alias.is_none() && self.response_topic.is_none()
            && self.correlation_data.is_none() && self.subscription_id.is_none()
            && self.content_type.is_none() && self.user_properties.len() == 0
    }

    /// Refuses a topic alias and a subscription identifier of 0.
    pub fn validate(&self) -> (res: Result<(), Error>)
        ensures
            res == self@.spec_validate(),
    {
        let alias_zero = match self.topic_alias {
            Some(v) => v == 0,
            None => false,
        };
        let id_zero = match self.subscription_id {
            Some(v) => v.0 == 0,
            None => false,
        };
        if alias_zero || id_zero {
            Err(Error::protocol_error())
        } else {
            Ok(())
        }
    }

    /// Reads the properties section that starts at `off`.
    pub fn decode(stream: &[u8], off: usize) -> (res: Result<(PublishProperties, usize), Error>)
        ensures
            agrees_view(res, PublishPropertiesView::dec(stream@, off as int)),
    {
        match PropBag::decode(PropCtx::Publish, stream, off) {
            Err(e) => Err(e),
            Ok((bag, n)) => Ok((PublishProperties::from_bag(bag), n)),
        }
    }

    /// Whether every value is short enough to be written.
    pub fn check_fits(&self) -> (b: bool)
        ensures
            b == self@.fits(),
    {
        let r = match &self.response_topic {
            Some(s) => s.0.as_str().as_bytes().len() <= FIELD_MAX,
            None => true,
        };
        let d = match &self.correlation_data {
            Some(s) => s.len() <= FIELD_MAX,
            None => true,
        };
        let i = match self.subscription_id {
            Some(v) => v.0 <= VARU32_MAX,
            None => true,
        };
        let c = match &self.content_type {
            Some(s) => s.as_str().as_bytes().len() <= FIELD_MAX,
            None => true,
        };
        r && d && i && c && check_users_fit(&self.user_properties)
    }

    /// Appends the properties, without the length of the section.
    pub fn encode_body(&self, data: &mut Vec<u8>) -> (res: Result<(), Error>)
        ensures
            self@.fits() ==> res is Ok && final(data)@ == old(data)@ + self@.enc_body(),
            !self@.fits() ==> res == Err::<(), Error>(malformed()),
    {
        reveal(PublishPropertiesView::enc_body);
        if !self.check_fits() {
            return Err(Error::malformed());
        }
        let ghost d0 = data@;
        let ghost v = self@;
        let pfi: Option<u8> = if self.payload_format_indicator.is_utf8() {
            Some(1u8)
        } else {
            None
        };
        put_prop_u8(data, PropertyType::PayloadFormatIndicator, pfi);
        let ghost a1 = enc_opt(
            prop_u8(PropertyType::PayloadFormatIndicator, format_byte(v.payload_format_indicator)),
        );
        put_prop_u32(data, PropertyType::MessageExpiryInterval, self.message_expiry_interval);
        let ghost e2 = enc_opt(
            prop_u32(PropertyType::MessageExpiryInterval, v.message_expiry_interval),
        );
        proof {
            lemma_append_assoc(d0, a1, e2);
        }
        put_prop_u16(data, PropertyType::TopicAlias, self.topic_alias);
        let ghost e3 = enc_opt(prop_u16(PropertyType::TopicAlias, v.topic_alias));
        proof {
            lemma_append_assoc(d0, a1 + e2, e3);
        }
        let _ = put_prop_text(
            data,
            PropertyType::ResponseTopic,
            opt_topic_str(&self.response_topic),
        );
        let ghost e4 = enc_opt(prop_text(PropertyType::ResponseTopic, v.response_topic));
        proof {
            lemma_append_assoc(d0, a1 + e2 + e3, e4);
        }
        let _ = put_prop_binary(data, PropertyType::CorrelationData, &self.correlation_data);
        let ghost e5 = enc_opt(prop_binary(PropertyType::CorrelationData, v.correlation_data));
        proof {
            lemma_append_assoc(d0, a1 + e2 + e3 + e4, e5);
        }
        let id: Option<u32> = match self.subscription_id {
            Some(x) => Some(x.0),
            None => None,
        };
        let _ = put_prop_varint(data, PropertyType::SubscriptionIdentifier, id);
        let ghost e6 = enc_opt(
            prop_varint(PropertyType::SubscriptionIdentifier, v.subscription_id),
        );
        proof {
            lemma_append_assoc(d0, a1 + e2 + e3 + e4 + e5, e6);
        }
        let _ = put_prop_text(data, PropertyType::ContentType, opt_str(&self.content_type));
        let ghost e7 = enc_opt(prop_text(PropertyType::ContentType, v.content_type));
        proof {
            lemma_append_assoc(d0, a1 + e2 + e3 + e4 + e5 + e6, e7);
        }
        let _ = put_user_props(data, &self.user_properties);
        proof {
            lemma_append_assoc(
                d0,
                a1 + e2 + e3 + e4 + e5 + e6 + e7,
                enc_users(v.user_properties),
            );
        }
        Ok(())
    }
}

/// The properties of a PUBLISH, read back where they were written, are the
/// properties written.
#[verifier::rlimit(40)]
pub proof fn lemma_dec_enc_publish_properties(s: Seq<u8>, i: int, p: PublishPropertiesView)
    requires
        p.wf(),
        p.enc_body().len() <= VARU32_MAX,
        has_at(s, i, enc_section(p.enc_body())),
    ensures
        dec_section(PropCtx::Publish, s, i) == Ok::<(PropsView, int), Error>(
            (p.to_bag(), i + enc_section(p.enc_body()).len()),
        ),
        PublishPropertiesView::dec(s, i) == Ok::<(PublishPropertiesView, int), Error>(
            (p, i + enc_section(p.enc_body()).len()),
        ),
{
    reveal(PublishPropertiesView::enc_body);
    let ctx = PropCtx::Publish;
    let body = p.enc_body();
    lemma_section_frame(s, i, body);
    let j = i + varu32_len(body.len() as u32);
    let t = s.subrange(0, j + body.len());
    let bag = p.to_bag();
    let o1 = prop_u8(PropertyType::PayloadFormatIndicator, format_byte(p.payload_format_indicator));
    let o2 = prop_u32(PropertyType::MessageExpiryInterval, p.message_expiry_interval);
    let o3 = prop_u16(PropertyType::TopicAlias, p.topic_alias);
    let o4 = prop_text(PropertyType::ResponseTopic, p.response_topic);
    let o5 = prop_binary(PropertyType::CorrelationData, p.correlation_data);
    let o6 = prop_varint(PropertyType::SubscriptionIdentifier, p.subscription_id);
    let o7 = prop_text(PropertyType::ContentType, p.content_type);
    let a1 = enc_opt(o1);
    let a2 = a1 + enc_opt(o2);
    let a3 = a2 + enc_opt(o3);
    let a4 = a3 + enc_opt(o4);
    let a5 = a4 + enc_opt(o5);
    let a6 = a5 + enc_opt(o6);
    let a7 = a6 + enc_opt(o7);
    lemma_has_at_split(t, j, a7, enc_users(p.user_properties));
    lemma_has_at_split(t, j, a6, enc_opt(o7));
    lemma_has_at_split(t, j, a5, enc_opt(o6));
    lemma_has_at_split(t, j, a4, enc_opt(o5));
    lemma_has_at_split(t, j, a3, enc_opt(o4));
    lemma_has_at_split(t, j, a2, enc_opt(o3));
    lemma_has_at_split(t, j, a1, enc_opt(o2));
    let b0 = PropsView::empty();
    lemma_step_payload_format_indicator(ctx, t, j, b0, format_byte(p.payload_format_indicator));
    let b1 = PropsView { payload_format_indicator: format_byte(p.payload_format_indicator), ..b0 };
    lemma_step_message_expiry_interval(ctx, t, j + a1.len(), b1, p.message_expiry_interval);
    let b2 = PropsView { message_expiry_interval: p.message_expiry_interval, ..b1 };
    lemma_step_topic_alias(ctx, t, j + a2.len(), b2, p.topic_alias);
    let b3 = PropsView { topic_alias: p.topic_alias, ..b2 };
    lemma_step_response_topic(ctx, t, j + a3.len(), b3, p.response_topic);
    let b4 = PropsView { response_topic: p.response_topic, ..b3 };
    lemma_step_correlation_data(ctx, t, j + a4.len(), b4, p.correlation_data);
    let b5 = PropsView { correlation_data: p.correlation_data, ..b4 };
    lemma_step_subscription_id(ctx, t, j + a5.len(), b5, p.subscription_id);
    let b6 = PropsView { subscription_id: p.subscription_id, ..b5 };
    lemma_step_content_type(ctx, t, j + a6.len(), b6, p.content_type);
    let b7 = PropsView { content_type: p.content_type, ..b6 };
    lemma_dec_props_users(ctx, t, j + a7.len(), b7, p.user_properties);
    assert(b7.user_properties + p.user_properties =~= p.user_properties);
    assert(PublishPropertiesView::from_bag(bag) == p);
}

/// PUBLISH properties of which there is at least one take at least one byte.
pub proof fn lemma_publish_props_nonempty(p: PublishPropertiesView)
    requires
        !p.is_empty(),
    ensures
        p.enc_body().len() >= 1,
{
    reveal(PublishPropertiesView::enc_body);
    if p.user_properties.len() > 0 {
        lemma_users_nonempty(p.user_properties);
    }
}

/// PUBLISH packet.
#[derive(Clone, Eq, PartialEq, Debug)]
pub struct Publish {
    pub retain: bool,
    pub qos: QoS,
    pub duplicate: bool,
    pub topic_name: TopicName,
    /// Present exactly when the quality of service is above 0.
    pub packet_id: Option<PacketID>,
    pub properties: Option<PublishProperties>,
    /// Absent where the packet carries no payload byte.
    pub payload: Option<Vec<u8>>,
}

/// A PUBLISH, with text as its bytes.
pub ghost struct PublishView {
    pub retain: bool,
    pub qos: QoS,
    pub duplicate: bool,
    pub topic_name: Seq<u8>,
    pub packet_id: Option<PacketID>,
    pub properties: Option<PublishPropertiesView>,
    pub payload: Option<Seq<u8>>,
}

/// The view of PUBLISH properties that may be absent.
pub open spec fn opt_publish_props_view(p: Option<PublishProperties>) -> Option<
    PublishPropertiesView,
> {
    match p {
        Some(p) => Some(p@),
        None => None,
    }
}

/// The PUBLISH properties that a bag holds, if there is a bag and the
/// properties say anything: properties that say nothing but that the payload
/// is binary are what no properties say, and count as none.
pub open spec fn opt_publish_from_bag(b: Option<PropsView>) -> Option<PublishPropertiesView> {
    match b {
        Some(b) => if PublishPropertiesView::from_bag(b).is_empty() {
            None
        } else {
            Some(PublishPropertiesView::from_bag(b))
        },
        None => None,
    }
}

impl View for Publish {
    type V = PublishView;

    open spec fn view(&self) -> PublishView {
        PublishView {
            retain: self.retain,
            qos: self.qos,
            duplicate: self.duplicate,
            topic_name: self.topic_name@,
            packet_id: self.packet_id,
            properties: opt_publish_props_view(self.properties),
            payload: opt_bin_view(self.payload),
        }
    }
}

/// A packet identifier read at position `i` if one is `present`.
pub open spec fn dec_opt_packet_id(s: Seq<u8>, i: int, present: bool) -> Result<
    (Option<PacketID>, int),
    Error,
> {
    if present {
        match dec_u16(s, i) {
            Err(e) => Err(e),
            Ok((v, n)) => Ok((Some(v), n)),
        }
    } else {
        Ok((None, i))
    }
}

/// The bytes of a packet identifier that may be absent.
pub open spec fn enc_opt_packet_id(p: Option<PacketID>) -> Seq<u8> {
    match p {
        Some(p) => enc_u16(p),
        None => Seq::empty(),
    }
}

/// The payload that the bytes `b` make: none where there is no byte.
pub open spec fn payload_of(b: Seq<u8>) -> Option<Seq<u8>> {
    if b.len() == 0 {
        None
    } else {
        Some(b)
    }
}

/// The bytes of a payload that may be absent.
pub open spec fn payload_bytes(p: Option<Seq<u8>>) -> Seq<u8> {
    match p {
        Some(b) => b,
        None => Seq::empty(),
    }
}

impl PublishView {
    /// The bytes of the properties, without the length of their section.
    pub open spec fn props_body(self) -> Seq<u8> {
        match self.properties {
            Some(p) => p.enc_body(),
            None => Seq::empty(),
        }
    }

    /// The topic name, the packet identifier if there is one, and the
    /// properties section.
    pub open spec fn head(self) -> Seq<u8> {
        enc_bytes(self.topic_name) + enc_opt_packet_id(self.packet_id) + enc_section(
            self.props_body(),
        )
    }

    /// Everything behind the fixed header.
    pub open spec fn body(self) -> Seq<u8> {
        self.head() + payload_bytes(self.payload)
    }

    pub open spec fn header(self) -> FixedHeader {
        FixedHeader {
            byte1: publish_byte(self.retain, self.qos, self.duplicate),
            remaining_len: VarU32(self.body().len() as u32),
        }
    }

    /// The payload is declared to be UTF-8 and is not.
    pub open spec fn payload_text_broken(self) -> bool {
        &&& self.properties matches Some(p)
        &&& p.payload_format_indicator == PayloadFormat::Utf8
        &&& self.payload matches Some(b)
        &&& !valid_utf8(b)
    }

    /// The rules that a PUBLISH keeps before it is written and after it was
    /// read: it carries a packet identifier exactly when its quality of service
    /// is above 0, and that identifier is not 0; a topic alias and a
    /// subscription identifier are not 0; else it is a protocol error. A
    /// payload that is declared to be UTF-8 is UTF-8, else the error says
    /// "payload format invalid".
    pub open spec fn spec_validate(self) -> Result<(), Error> {
        if (self.qos == QoS::AtMostOnce) != (self.packet_id is None) {
            Err(protocol_error())
        } else if self.packet_id == Some(0u16) {
            Err(protocol_error())
        } else if self.properties matches Some(p) && p.spec_validate() is Err {
            Err(protocol_error())
        } else if self.payload_text_broken() {
            Err(payload_format_invalid())
        } else {
            Ok(())
        }
    }

    /// Every field is short enough to be written.
    pub open spec fn fits(self) -> bool {
        &&& self.topic_name.len() <= FIELD_MAX
        &&& (self.properties matches Some(p) ==> p.fits() && p.enc_body().len() <= VARU32_MAX)
    }

    /// The bytes of the packet, or why it cannot be written.
    pub open spec fn spec_encode(self) -> Result<Seq<u8>, Error> {
        match self.spec_validate() {
            Err(e) => Err(e),
            Ok(()) => if !self.fits() || self.body().len() > VARU32_MAX {
                Err(malformed())
            } else {
                Ok(self.header().enc() + self.body())
            },
        }
    }

    /// The PUBLISH that stands at position `i`, and the position behind it.
    ///
    /// The fixed header is valid and announces a PUBLISH, and the packet ends
    /// within `s` where the remaining length says, else it is malformed.
    /// Nothing is read past that end. The topic name, a packet identifier
    /// where the quality of service is above 0, and the properties section
    /// (absent if its length is 0) are followed by the payload, which is what
    /// is left of the packet. The whole is then held to the rules of
    /// `spec_validate`.
    #[verifier::opaque]
    pub open spec fn dec(s: Seq<u8>, i: int) -> Result<(PublishView, int), Error> {
        match FixedHeader::dec(s, i) {
            Err(e) => Err(e),
            Ok((fh, n0)) => match fh.spec_validate() {
                Err(e) => Err(e),
                Ok(()) => match spec_unwrap_first_byte(fh.byte1) {
                    Err(e) => Err(e),
                    Ok((t, retain, qos, duplicate)) => {
                        let m = n0 + fh.remaining_len.0;
                        if t != PacketType::Publish || m > s.len() {
                            Err(malformed())
                        } else {
                            Self::dec_body(s.subrange(0, m), n0, retain, qos, duplicate)
                        }
                    },
                },
            },
        }
    }

    /// What follows the fixed header of a PUBLISH that ends where `s` ends.
    pub open spec fn dec_body(s: Seq<u8>, n0: int, retain: bool, qos: QoS, duplicate: bool) -> Result<
        (PublishView, int),
        Error,
    > {
        match dec_string(s, n0) {
            Err(e) => Err(e),
            Ok((topic_name, n1)) => match dec_opt_packet_id(s, n1, qos != QoS::AtMostOnce) {
                Err(e) => Err(e),
                Ok((packet_id, n2)) => match dec_opt_section(PropCtx::Publish, s, n2) {
                    Err(e) => Err(e),
                    Ok((bag, n3)) => {
                        let v = PublishView {
                            retain,
                            qos,
                            duplicate,
                            topic_name,
                            packet_id,
                            properties: opt_publish_from_bag(bag),
                            payload: payload_of(s.subrange(n3, s.len() as int)),
                        };
                        match v.spec_validate() {
                            Err(e) => Err(e),
                            Ok(()) => Ok((v, s.len() as int)),
                        }
                    },
                },
            },
        }
    }

    /// The PUBLISH reads back as itself: its topic name is UTF-8, its
    /// properties, where there are any, are well-formed and not empty, and a
    /// payload, where there is one, is not empty.
    pub open spec fn canonical(self) -> bool {
        &&& valid_utf8(self.topic_name)
        &&& (self.properties matches Some(p) ==> p.wf() && !p.is_empty())
        &&& (self.payload matches Some(b) ==> b.len() > 0)
    }
}

impl Publish {
    /// Whether the payload is declared to be UTF-8 and is not.
    fn is_payload_text_broken(&self) -> (b: bool)
        ensures
            b == self@.payload_text_broken(),
    {
        match &self.properties {
            Some(p) => if p.payload_format_indicator.is_utf8() {
                match &self.payload {
                    Some(bytes) => !is_utf8(bytes.as_slice()),
                    None => false,
                }
            } else {
                false
            },
            None => false,
        }
    }

    /// Holds the packet to the rules of a PUBLISH.
    pub fn validate(&self) -> (res: Result<(), Error>)
        ensures
            res == self@.spec_validate(),
    {
        let qos0 = match self.qos {
            QoS::AtMostOnce => true,
            _ => false,
        };
        if qos0 != self.packet_id.is_none() {
            return Err(Error::protocol_error());
        }
        match self.packet_id {
            Some(0) => {
                return Err(Error::protocol_error());
            },
            _ => {},
        }
        match &self.properties {
            Some(p) => match p.validate() {
                Err(_) => {
                    return Err(Error::protocol_error());
                },
                Ok(()) => {},
            },
            None => {},
        }
        if self.is_payload_text_broken() {
            return Err(Error::new(ErrorKind::ProtocolError, ReasonCode::PayloadFormatInvalid));
        }
        Ok(())
    }

    /// Reads a PUBLISH from the start of `stream`; returns it with the number of
    /// bytes read, which is the whole packet as its fixed header measures it.
    pub fn decode(stream: &[u8]) -> (res: Result<(Publish, usize), Error>)
        ensures
            agrees_view(res, PublishView::dec(stream@, 0)),
    {
        reveal(PublishView::dec);
        let (fh, n0) = match FixedHeader::decode(stream, 0) {
            Err(e) => {
                return Err(e);
            },
            Ok(x) => x,
        };
        match fh.validate() {
            Err(e) => {
                return Err(e);
            },
            Ok(()) => {},
        }
        let (t, retain, qos, duplicate) = match fh.unwrap() {
            Err(e) => {
                return Err(e);
            },
            Ok(x) => x,
        };
        let is_publish = match t {
            PacketType::Publish => true,
            _ => false,
        };
        let remaining: usize = fh.remaining_len.0 as usize;
        if !is_publish || remaining > stream.len() - n0 {
            return Err(Error::malformed());
        }
        let m: usize = n0 + remaining;
        let frame = slice_subrange(stream, 0, m);
        let (topic_name, n1) = match decode_string(frame, n0) {
            Err(e) => {
                return Err(e);
            },
            Ok(x) => x,
        };
        let qos0 = match qos {
            QoS::AtMostOnce => true,
            _ => false,
        };
        let (packet_id, n2) = if qos0 {
            (None, n1)
        } else {
            match decode_u16(frame, n1) {
                Err(e) => {
                    return Err(e);
                },
                Ok((v, n)) => (Some(v), n),
            }
        };
        let (bag, n3) = match PropBag::decode_opt(PropCtx::Publish, frame, n2) {
            Err(e) => {
                return Err(e);
            },
            Ok(x) => x,
        };
        let properties = match bag {
            Some(b) => {
                let p = PublishProperties::from_bag(b);
                if p.is_empty() {
                    None
                } else {
                    Some(p)
                }
            },
            None => None,
        };
        let payload = if n3 < m {
            Some(copy_range(frame, n3, m))
        } else {
            None
        };
        let val = Publish {
            retain,
            qos,
            duplicate,
            topic_name: TopicName(topic_name),
            packet_id,
            properties,
            payload,
        };
        match val.validate() {
            Err(e) => Err(e),
            Ok(()) => Ok((val, m)),
        }
    }

    /// The bytes of the packet: fixed header, topic name, packet identifier if
    /// there is one, properties section and payload. The packet is first held to
    /// the rules of `validate`; a field that is too long to be written and a
    /// packet longer than a variable-byte integer can say are malformed.
    pub fn encode(&self) -> (res: Result<Vec<u8>, Error>)
        ensures
            match res {
                Ok(v) => self@.spec_encode() == Ok::<Seq<u8>, Error>(v@),
                Err(e) => self@.spec_encode() == Err::<Seq<u8>, Error>(e),
            },
    {
        match self.validate() {
            Err(e) => {
                return Err(e);
            },
            Ok(()) => {},
        }
        let mut data: Vec<u8> = Vec::new();
        match put_string(&mut data, self.topic_name.0.as_str()) {
            Err(e) => {
                return Err(e);
            },
            Ok(()) => {},
        }
        match self.packet_id {
            Some(id) => {
                put_u16(&mut data, id);
            },
            None => {},
        }
        let mut props: Vec<u8> = Vec::new();
        match &self.properties {
            Some(p) => match p.encode_body(&mut props) {
                Err(e) => {
                    return Err(e);
                },
                Ok(()) => {},
            },
            None => {},
        }
        assert(props@ =~= self@.props_body());
        let section = match wrap_section(props) {
            Err(e) => {
                return Err(e);
            },
            Ok(s) => s,
        };
        put_raw(&mut data, section.as_slice());
        assert(data@ =~= self@.head());
        match &self.payload {
            Some(b) => {
                put_raw(&mut data, b.as_slice());
            },
            None => {
                assert(data@ =~= self@.head() + payload_bytes(None));
            },
        }
        if data.len() > VARU32_MAX as usize {
            return Err(Error::malformed());
        }
        let fh = match FixedHeader::new_publish(
            self.retain,
            self.qos,
            self.duplicate,
            VarU32(data.len() as u32),
        ) {
            Err(e) => {
                return Err(e);
            },
            Ok(fh) => fh,
        };
        let mut out: Vec<u8> = Vec::new();
        let _ = fh.encode_into(&mut out);
        put_raw(&mut out, data.as_slice());
        assert(out@ =~= self@.header().enc() + self@.body());
        Ok(out)
    }
}

/// The first byte of a PUBLISH is valid and says what it was made of.
pub proof fn lemma_publish_byte(retain: bool, qos: QoS, duplicate: bool)
    ensures
        crate::v5::first_byte_valid(publish_byte(retain, qos, duplicate)) is Ok,
        spec_unwrap_first_byte(publish_byte(retain, qos, duplicate)) == Ok::<
            (PacketType, bool, QoS, bool),
            Error,
        >((PacketType::Publish, retain, qos, duplicate)),
{
}

/// What follows the fixed header of a canonical PUBLISH, read back where it
/// was written, is what was written.
#[verifier::rlimit(40)]
pub proof fn lemma_dec_enc_publish_body(s: Seq<u8>, n0: int, v: PublishView)
    requires
        v.spec_validate() is Ok,
        v.fits(),
        v.canonical(),
        has_at(s, n0, v.body()),
        n0 + v.body().len() == s.len(),
    ensures
        PublishView::dec_body(s, n0, v.retain, v.qos, v.duplicate) == Ok::<
            (PublishView, int),
            Error,
        >((v, s.len() as int)),
{
    let e1 = enc_bytes(v.topic_name);
    let e2 = enc_opt_packet_id(v.packet_id);
    let e3 = enc_section(v.props_body());
    let e4 = payload_bytes(v.payload);
    let a2 = e1 + e2;
    let a3 = a2 + e3;
    lemma_has_at_split(s, n0, a3, e4);
    lemma_has_at_split(s, n0, a2, e3);
    lemma_has_at_split(s, n0, e1, e2);
    let n1 = n0 + e1.len();
    let n2 = n1 + e2.len();
    let n3 = n2 + e3.len();
    assert(dec_string(s, n0) == Ok::<(Seq<u8>, int), Error>((v.topic_name, n1))) by {
        lemma_dec_enc_string(s, n0, v.topic_name);
        lemma_dec_enc_bytes(s, n0, v.topic_name);
    }
    assert(dec_opt_packet_id(s, n1, v.qos != QoS::AtMostOnce) == Ok::<
        (Option<PacketID>, int),
        Error,
    >((v.packet_id, n2))) by {
        match v.packet_id {
            Some(id) => {
                lemma_dec_enc_u16(s, n1, id);
            },
            None => {},
        }
    }
    assert(dec_opt_section(PropCtx::Publish, s, n2) matches Ok((bag, n)) && opt_publish_from_bag(
        bag,
    ) == v.properties && n == n3) by {
        match v.properties {
            Some(p) => {
                lemma_dec_enc_publish_properties(s, n2, p);
                lemma_section_frame(s, n2, p.enc_body());
                lemma_publish_props_nonempty(p);
            },
            None => {
                lemma_section_frame(s, n2, Seq::<u8>::empty());
            },
        }
    }
    assert(payload_of(s.subrange(n3, s.len() as int)) == v.payload) by {
        reveal(has_at);
        assert(s.subrange(n3, s.len() as int) =~= e4);
    }
}

/// Reading is the inverse of writing: a PUBLISH that `encode` accepts and that
/// is canonical is what `decode` reads from the bytes that `encode` gave, and
/// all of those bytes are read.
#[verifier::rlimit(40)]
pub proof fn law_publish_decode_encode(v: PublishView)
    requires
        v.spec_encode() is Ok,
        v.canonical(),
    ensures
        PublishView::dec(v.spec_encode()->Ok_0, 0) == Ok::<(PublishView, int), Error>(
            (v, v.spec_encode()->Ok_0.len() as int),
        ),
{
    reveal(PublishView::dec);
    let s = v.spec_encode()->Ok_0;
    let fh = v.header();
    lemma_has_at_start(fh.enc(), v.body());
    lemma_dec_enc_fixed_header(s, 0, fh);
    lemma_publish_byte(v.retain, v.qos, v.duplicate);
    let n0 = fh.enc().len() as int;
    let m = n0 + fh.remaining_len.0;
    assert(m == s.len());
    assert(s.subrange(0, m) =~= s);
    lemma_dec_enc_publish_body(s, n0, v);
}

/// A copy of a string.
pub fn copy_string(s: &String) -> (r: String)
    ensures
        r@ == s@,
{
    s.clone()
}

/// A copy of binary data.
pub fn copy_bytes(v: &Vec<u8>) -> (r: Vec<u8>)
    ensures
        r@ == v@,
{
    let r = copy_range(v.as_slice(), 0, v.len());
    assert(v@.subrange(0, v@.len() as int) =~= v@);
    r
}

/// A copy of a string that may be absent.
pub fn copy_opt_string(s: &Option<String>) -> (r: Option<String>)
    ensures
        opt_str_view(r) == opt_str_view(*s),
{
    match s {
        Some(s) => Some(copy_string(s)),
        None => None,
    }
}

/// A copy of binary data that may be absent.
pub fn copy_opt_bytes(v: &Option<Vec<u8>>) -> (r: Option<Vec<u8>>)
    ensures
        opt_bin_view(r) == opt_bin_view(*v),
{
    match v {
        Some(v) => Some(copy_bytes(v)),
        None => None,
    }
}

/// A copy of the name of a topic that may be absent.
pub fn copy_opt_topic(v: &Option<TopicName>) -> (r: Option<TopicName>)
    ensures
        opt_topic_view(r) == opt_topic_view(*v),
{
    match v {
        Some(t) => Some(TopicName(copy_string(&t.0))),
        None => None,
    }
}

/// A copy of user properties.
pub fn copy_user_props(us: &Vec<UserProperty>) -> (r: Vec<UserProperty>)
    ensures
        user_props_view(r@) == user_props_view(us@),
{
    let mut out: Vec<UserProperty> = Vec::new();
    let mut k: usize = 0;
    while k < us.len()
        invariant
            k <= us@.len(),
            out@.len() == k,
            forall|j: int| 0 <= j < k ==> (#[trigger] out@[j]).0@ == us@[j].0@ && out@[j].1@ == us@[j].1@,
        decreases us@.len() - k,
    {
        let u = &us[k];
        out.push((copy_string(&u.0), copy_string(&u.1)));
        k += 1;
    }
    assert(user_props_view(out@) =~= user_props_view(us@));
    out
}

impl PublishProperties {
    /// A copy of the properties.
    pub fn duplicate(&self) -> (r: PublishProperties)
        ensures
            r@ == self@,
    {
        PublishProperties {
            payload_format_indicator: self.payload_format_indicator,
            message_expiry_interval: self.message_expiry_interval,
            topic_alias: self.topic_alias,
            response_topic: copy_opt_topic(&self.response_topic),
            correlation_data: copy_opt_bytes(&self.correlation_data),
            subscription_id: self.subscription_id,
            content_type: copy_opt_string(&self.content_type),
            user_properties: copy_user_props(&self.user_properties),
        }
    }
}

impl Publish {
    /// A copy of the packet.
    pub fn duplicate(&self) -> (r: Publish)
        ensures
            r@ == self@,
    {
        Publish {
            retain: self.retain,
            qos: self.qos,
            duplicate: self.duplicate,
            topic_name: TopicName(copy_string(&self.topic_name.0)),
            packet_id: self.packet_id,
            properties: match &self.properties {
                Some(p) => Some(p.duplicate()),
                None => None,
            },
            payload: copy_opt_bytes(&self.payload),
        }
    }
}

/// The properties that a valid section of a PUBLISH holds are well-formed and
/// take, written again, no more bytes than the section's properties.
pub proof fn lemma_publish_from_bag(bag: PropsView)
    requires
        bag.valid_for(PropCtx::Publish),
    ensures
        PublishPropertiesView::from_bag(bag).wf(),
        0 <= PublishPropertiesView::from_bag(bag).enc_body().len() <= bag.size(),
{
    reveal(PublishPropertiesView::enc_body);
}

/// What was read behind the fixed header of a PUBLISH can be written, in no
/// more bytes than were read, and is canonical.
#[verifier::rlimit(40)]
pub proof fn lemma_publish_body_canonical(t: Seq<u8>, n0: int, retain: bool, qos: QoS, duplicate: bool)
    requires
        0 <= n0,
        PublishView::dec_body(t, n0, retain, qos, duplicate) is Ok,
    ensures
        ({
            let v = PublishView::dec_body(t, n0, retain, qos, duplicate)->Ok_0.0;
            &&& v.spec_validate() is Ok
            &&& v.fits()
            &&& v.body().len() <= t.len() - n0
            &&& valid_utf8(v.topic_name)
            &&& (v.properties matches Some(p) ==> p.wf() && !p.is_empty())
            &&& (v.payload matches Some(x) ==> x.len() > 0)
            &&& v.retain == retain && v.qos == qos && v.duplicate == duplicate
        }),
{
    let v = PublishView::dec_body(t, n0, retain, qos, duplicate)->Ok_0.0;
    crate::wire::lemma_enc_dec_bytes(t, n0);
    let n1 = dec_string(t, n0)->Ok_0.1;
    let n2 = dec_opt_packet_id(t, n1, qos != QoS::AtMostOnce)->Ok_0.1;
    lemma_dec_section_valid(PropCtx::Publish, t, n2);
    let (ob, n3) = dec_opt_section(PropCtx::Publish, t, n2)->Ok_0;
    let e1 = enc_bytes(v.topic_name);
    let e2 = enc_opt_packet_id(v.packet_id);
    let e3 = enc_section(v.props_body());
    assert(e1.len() == n1 - n0);
    assert(e2.len() == n2 - n1);
    assert(e3.len() <= n3 - n2) by {
        match ob {
            Some(bag) => {
                lemma_publish_from_bag(bag);
                if PublishPropertiesView::from_bag(bag).is_empty() {
                    assert(enc_section(Seq::<u8>::empty()).len() == 1);
                } else {
                    let x = PublishPropertiesView::from_bag(bag).enc_body().len() as int;
                    assert(section_size(x) <= n3 - n2);
                    assert(enc_varu32(x as u32).len() == varu32_len(x as u32));
                }
            },
            None => {
                assert(enc_section(Seq::<u8>::empty()).len() == 1);
            },
        }
    }
    assert(payload_bytes(v.payload).len() == t.len() - n3);
    match ob {
        Some(bag) => {
            lemma_publish_from_bag(bag);
        },
        None => {},
    }
}

/// Writing is the inverse of reading, up to the form of what was read: a
/// PUBLISH that `decode` read from any bytes, in whatever form and order its
/// properties stood there, is canonical, is accepted by `encode`, and is read
/// back from what `encode` gives.
#[verifier::rlimit(40)]
pub proof fn law_publish_encode_decode(b: Seq<u8>)
    requires
        PublishView::dec(b, 0) is Ok,
    ensures
        ({
            let v = PublishView::dec(b, 0)->Ok_0.0;
            &&& v.canonical()
            &&& v.spec_encode() is Ok
            &&& PublishView::dec(v.spec_encode()->Ok_0, 0) == Ok::<(PublishView, int), Error>(
                (v, v.spec_encode()->Ok_0.len() as int),
            )
        }),
{
    reveal(PublishView::dec);
    let v = PublishView::dec(b, 0)->Ok_0.0;
    let (fh, n0) = FixedHeader::dec(b, 0)->Ok_0;
    let (t, retain, qos, duplicate) = spec_unwrap_first_byte(fh.byte1)->Ok_0;
    let m = n0 + fh.remaining_len.0;
    crate::wire::lemma_dec_varu32_bounds(b, 1);
    lemma_publish_body_canonical(b.subrange(0, m), n0, retain, qos, duplicate);
    law_publish_decode_encode(v);
}

} // verus!
