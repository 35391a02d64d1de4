//! The CONNACK packet.

use vstd::prelude::*;
use vstd::utf8::*;
use crate::error::{Error, malformed, protocol_error};
use crate::wire::{
    agrees_view, dec_u8, decode_u8, enc_u8, has_at, lemma_append_assoc, lemma_dec_enc_u8,
    lemma_has_at_split, lemma_has_at_start, put_raw, put_u8, varu32_len, FIELD_MAX, VARU32_MAX,
};
use crate::v5::{
    first_byte, lemma_dec_enc_fixed_header, lemma_first_byte, opt_bin_view, opt_str_view,
    user_props_view, FixedHeader, PacketType, UserProperty, VarU32,
};
use crate::v5::connect::{byte_flag, check_users_fit, flag_byte, lemma_users_nonempty};
use crate::v5::property::{
    dec_opt_section, dec_section, enc_opt, enc_section, enc_users, lemma_dec_props_users,
    lemma_dec_section_valid, lemma_section_frame, opt_fits, opt_str, prop_binary, prop_text,
    prop_u16, prop_u32, prop_u8, put_prop_binary, put_prop_text, put_prop_u16, put_prop_u32,
    put_prop_u8, put_user_props, users_fit, users_wf, PropBag, PropCtx, PropertyType, PropsView,
    lemma_step_assigned_client_identifier, lemma_step_authentication_data,
    lemma_step_authentication_method, lemma_step_max_packet_size, lemma_step_maximum_qos,
    lemma_step_reason_string, lemma_step_receive_maximum, lemma_step_response_information,
    lemma_step_retain_available, lemma_step_server_keep_alive, lemma_step_server_reference,
    lemma_step_session_expiry_interval, lemma_step_shared_subscription_available,
    lemma_step_subscription_identifiers_available, lemma_step_topic_alias_max,
    lemma_step_wildcard_subscription_available,
};
use crate::v5::pubaclc::wrap_section;

verus! {

/// Collection of MQTT properties allowed in a CONNACK packet.
#[derive(Clone, Eq, PartialEq, Debug)]
pub struct ConnAckProperties {
    pub session_expiry_interval: Option<u32>,
    pub receive_maximum: Option<u16>,
    pub maximum_qos: Option<u8>,
    pub retain_available: Option<bool>,
    pub max_packet_size: Option<u32>,
    pub assigned_client_identifier: Option<String>,
    pub topic_alias_max: Option<u16>,
    pub reason_string: Option<String>,
    pub wildcard_subscription_available: Option<bool>,
    pub subscription_identifiers_available: Option<bool>,
    pub shared_subscription_available: Option<bool>,
    pub server_keep_alive: Option<u16>,
    pub response_information: Option<String>,
    pub server_reference: Option<String>,
    pub authentication_method: Option<String>,
    pub authentication_data: Option<Vec<u8>>,
    pub user_properties: Vec<UserProperty>,
}

/// The properties of a CONNACK, with text as its bytes.
pub ghost struct ConnAckPropertiesView {
    pub session_expiry_interval: Option<u32>,
    pub receive_maximum: Option<u16>,
    pub maximum_qos: Option<u8>,
    pub retain_available: Option<bool>,
    pub max_packet_size: Option<u32>,
    pub assigned_client_identifier: Option<Seq<u8>>,
    pub topic_alias_max: Option<u16>,
    pub reason_string: Option<Seq<u8>>,
    pub wildcard_subscription_available: Option<bool>,
    pub subscription_identifiers_available: Option<bool>,
    pub shared_subscription_available: Option<bool>,
    pub server_keep_alive: Option<u16>,
    pub response_information: Option<Seq<u8>>,
    pub server_reference: Option<Seq<u8>>,
    pub authentication_method: Option<Seq<u8>>,
    pub authentication_data: Option<Seq<u8>>,
    pub user_properties: Seq<(Seq<u8>, Seq<u8>)>,
}

impl View for ConnAckProperties {
    type V = ConnAckPropertiesView;

    open spec fn view(&self) -> ConnAckPropertiesView {
        ConnAckPropertiesView {
            session_expiry_interval: self.session_expiry_interval,
            receive_maximum: self.receive_maximum,
            maximum_qos: self.maximum_qos,
            retain_available: self.retain_available,
            max_packet_size: self.max_packet_size,
            assigned_client_identifier: opt_str_view(self.assigned_client_identifier),
            topic_alias_max: self.topic_alias_max,
            reason_string: opt_str_view(self.reason_string),
            wildcard_subscription_available: self.wildcard_subscription_available,
            subscription_identifiers_available: self.subscription_identifiers_available,
            shared_subscription_available: self.shared_subscription_available,
            server_keep_alive: self.server_keep_alive,
            response_information: opt_str_view(self.response_information),
            server_reference: opt_str_view(self.server_reference),
            authentication_method: opt_str_view(self.authentication_method),
            authentication_data: opt_bin_view(self.authentication_data),
            user_properties: user_props_view(self.user_properties@),
        }
    }
}

impl ConnAckPropertiesView {
    pub open spec fn from_bag(bag: PropsView) -> ConnAckPropertiesView {
        ConnAckPropertiesView {
            session_expiry_interval: bag.session_expiry_interval,
            receive_maximum: bag.receive_maximum,
            maximum_qos: bag.maximum_qos,
            retain_available: byte_flag(bag.retain_available),
            max_packet_size: bag.max_packet_size,
            assigned_client_identifier: bag.assigned_client_identifier,
            topic_alias_max: bag.topic_alias_max,
            reason_string: bag.reason_string,
            wildcard_subscription_available: byte_flag(bag.wildcard_subscription_available),
            subscription_identifiers_available: byte_flag(bag.subscription_identifiers_available),
            shared_subscription_available: byte_flag(bag.shared_subscription_available),
            server_keep_alive: bag.server_keep_alive,
            response_information: bag.response_information,
            server_reference: bag.server_reference,
            authentication_method: bag.authentication_method,
            authentication_data: bag.authentication_data,
            user_properties: bag.user_properties,
        }
    }

    pub open spec fn to_bag(self) -> PropsView {
        PropsView {
            session_expiry_interval: self.session_expiry_interval,
            receive_maximum: self.receive_maximum,
            maximum_qos: self.maximum_qos,
            retain_available: flag_byte(self.retain_available),
            max_packet_size: self.max_packet_size,
            assigned_client_identifier: self.assigned_client_identifier,
            topic_alias_max: self.topic_alias_max,
            reason_string: self.reason_string,
            wildcard_subscription_available: flag_byte(self.wildcard_subscription_available),
            subscription_identifiers_available: flag_byte(self.subscription_identifiers_available),
            shared_subscription_available: flag_byte(self.shared_subscription_available),
            server_keep_alive: self.server_keep_alive,
            response_information: self.response_information,
            server_reference: self.server_reference,
            authentication_method: self.authentication_method,
            authentication_data: self.authentication_data,
            user_properties: self.user_properties,
            ..PropsView::empty()
        }
    }

    pub open spec fn is_empty(self) -> bool {
        &&& self.session_expiry_interval is None
        &&& self.receive_maximum is None
        &&& self.maximum_qos is None
        &&& self.retain_available is None
        &&& self.max_packet_size is None
        &&& self.assigned_client_identifier is None
        &&& self.topic_alias_max is None
        &&& self.reason_string is None
        &&& self.wildcard_subscription_available is None
        &&& self.subscription_identifiers_available is None
        &&& self.shared_subscription_available is None
        &&& self.server_keep_alive is None
        &&& self.response_information is None
        &&& self.server_reference is None
        &&& self.authentication_method is None
        &&& self.authentication_data is None
        &&& self.user_properties.len() == 0
    }

    /// Every value is short enough to be written.
    pub open spec fn fits(self) -> bool {
        &&& opt_fits(prop_text(PropertyType::AssignedClientIdentifier, self.assigned_client_identifier))
        &&& opt_fits(prop_text(PropertyType::ReasonString, self.reason_string))
        &&& opt_fits(prop_text(PropertyType::ResponseInformation, self.response_information))
        &&& opt_fits(prop_text(PropertyType::ServerReference, self.server_reference))
        &&& opt_fits(prop_text(PropertyType::AuthenticationMethod, self.authentication_method))
        &&& opt_fits(prop_binary(PropertyType::AuthenticationData, self.authentication_data))
        &&& users_fit(self.user_properties)
    }

    /// The rules on single values.
    pub open spec fn spec_validate(self) -> Result<(), Error> {
        if self.receive_maximum == Some(0u16) || (self.maximum_qos matches Some(x) && x > 1) || self.max_packet_size == Some(0u32) {
            Err(protocol_error())
        } else {
            Ok(())
        }
    }

    /// Every value keeps the rules, can be written, and is UTF-8 where it is
    /// text.
    pub open spec fn wf(self) -> bool {
        &&& self.spec_validate() is Ok
        &&& self.fits()
        &&& (self.assigned_client_identifier matches Some(m) ==> valid_utf8(m))
        &&& (self.reason_string matches Some(m) ==> valid_utf8(m))
        &&& (self.response_information matches Some(m) ==> valid_utf8(m))
        &&& (self.server_reference matches Some(m) ==> valid_utf8(m))
        &&& (self.authentication_method matches Some(m) ==> valid_utf8(m))
        &&& users_wf(self.user_properties)
    }

    /// The properties one behind the other, in the order of the fields, user
    /// properties last.
    #[verifier::opaque]
    pub open spec fn enc_body(self) -> Seq<u8> {
        enc_opt(prop_u32(PropertyType::SessionExpiryInterval, self.session_expiry_interval))
            + enc_opt(prop_u16(PropertyType::ReceiveMaximum, self.receive_maximum))
            + enc_opt(prop_u8(PropertyType::MaximumQoS, self.maximum_qos))
            + enc_opt(prop_u8(PropertyType::RetainAvailable, flag_byte(self.retain_available)))
            + enc_opt(prop_u32(PropertyType::MaximumPacketSize, self.max_packet_size))
            + enc_opt(prop_text(PropertyType::AssignedClientIdentifier, self.assigned_client_identifier))
            + enc_opt(prop_u16(PropertyType::TopicAliasMaximum, self.topic_alias_max))
            + enc_opt(prop_text(PropertyType::ReasonString, self.reason_string))
            + enc_opt(prop_u8(PropertyType::WildcardSubscriptionAvailable, flag_byte(self.wildcard_subscription_available)))
            + enc_opt(prop_u8(PropertyType::SubscriptionIdentifierAvailable, flag_byte(self.subscription_identifiers_available)))
            + enc_opt(prop_u8(PropertyType::SharedSubscriptionAvailable, flag_byte(self.shared_subscription_available)))
            + enc_opt(prop_u16(PropertyType::ServerKeepAlive, self.server_keep_alive))
            + enc_opt(prop_text(PropertyType::ResponseInformation, self.response_information))
            + enc_opt(prop_text(PropertyType::ServerReference, self.server_reference))
            + enc_opt(prop_text(PropertyType::AuthenticationMethod, self.authentication_method))
            + enc_opt(prop_binary(PropertyType::AuthenticationData, self.authentication_data))
            + enc_users(self.user_properties)
    }

    /// The properties section read at position `i`.
    pub open spec fn dec(s: Seq<u8>, i: int) -> Result<(ConnAckPropertiesView, int), Error> {
        match dec_section(PropCtx::ConnAck, s, i) {
            Err(e) => Err(e),
            Ok((bag, n)) => Ok((ConnAckPropertiesView::from_bag(bag), n)),
        }
    }
}

/// The view of properties that may be absent.
pub open spec fn opt_connack_props_view(p: Option<ConnAckProperties>) -> Option<ConnAckPropertiesView> {
    match p {
        Some(p) => Some(p@),
        None => None,
    }
}

/// The properties that a bag holds, if there is a bag.
pub open spec fn opt_connack_from_bag(b: Option<PropsView>) -> Option<ConnAckPropertiesView> {
    match b {
        Some(b) => Some(ConnAckPropertiesView::from_bag(b)),
        None => None,
    }
}

impl Default for ConnAckProperties {
    fn default() -> (p: ConnAckProperties)
        ensures
            p@.is_empty(),
    {
        ConnAckProperties {
            session_expiry_interval: None,
            receive_maximum: None,
            maximum_qos: None,
            retain_available: None,
            max_packet_size: None,
            assigned_client_identifier: None,
            topic_alias_max: None,
            reason_string: None,
            wildcard_subscription_available: None,
            subscription_identifiers_available: None,
            shared_subscription_available: None,
            server_keep_alive: None,
            response_information: None,
            server_reference: None,
            authentication_method: None,
            authentication_data: None,
            user_properties: Vec::new(),
        }
    }
}

impl ConnAckProperties {
    pub(crate) fn from_bag(bag: PropBag) -> (p: ConnAckProperties)
        ensures
            p@ == ConnAckPropertiesView::from_bag(bag@),
    {
        ConnAckProperties {
            session_expiry_interval: bag.session_expiry_interval,
            receive_maximum: bag.receive_maximum,
            maximum_qos: bag.maximum_qos,
            retain_available: match bag.retain_available {
                Some(x) => Some(x != 0),
                None => None,
            },
            max_packet_size: bag.max_packet_size,
            assigned_client_identifier: bag.assigned_client_identifier,
            topic_alias_max: bag.topic_alias_max,
            reason_string: bag.reason_string,
            wildcard_subscription_available: match bag.wildcard_subscription_available {
                Some(x) => Some(x != 0),
                None => None,
            },
            subscription_identifiers_available: match bag.subscription_identifiers_available {
                Some(x) => Some(x != 0),
                None => None,
            },
            shared_subscription_available: match bag.shared_subscription_available {
                Some(x) => Some(x != 0),
                None => None,
            },
            server_keep_alive: bag.server_keep_alive,
            response_information: bag.response_information,
            server_reference: bag.server_reference,
            authentication_method: bag.authentication_method,
            authentication_data: bag.authentication_data,
            user_properties: bag.user_properties,
        }
    }

    /// Whether no property is set.
    pub fn is_empty(&self) -> (b: bool)
        ensures
            b == self@.is_empty(),
    {
        self.session_expiry_interval.is_none() && self.receive_maximum.is_none() && self.maximum_qos.is_none() && self.retain_available.is_none() && self.max_packet_size.is_none() && self.assigned_client_identifier.is_none() && self.topic_alias_max.is_none() && self.reason_string.is_none() && self.wildcard_subscription_available.is_none() && self.subscription_identifiers_available.is_none() && self.shared_subscription_available.is_none() && self.server_keep_alive.is_none() && self.response_information.is_none() && self.server_reference.is_none() && self.authentication_method.is_none() && self.authentication_data.is_none() && self.user_properties.len() == 0
    }

    /// Checks the rules on single values.
    pub fn validate(&self) -> (res: Result<(), Error>)
        ensures
            res == self@.spec_validate(),
    {
        let bad0 = match self.receive_maximum {
            Some(v) => v == 0,
            None => false,
        };
        let bad1 = match self.maximum_qos {
            Some(v) => v > 1,
            None => false,
        };
        let bad2 = match self.max_packet_size {
            Some(v) => v == 0,
            None => false,
        };
        if bad0 || bad1 || bad2 {
            Err(Error::protocol_error())
        } else {
            Ok(())
        }
    }

    /// Reads the properties section that starts at `off`.
    pub fn decode(stream: &[u8], off: usize) -> (res: Result<(ConnAckProperties, usize), Error>)
        ensures
            agrees_view(res, ConnAckPropertiesView::dec(stream@, off as int)),
    {
        match PropBag::decode(PropCtx::ConnAck, stream, off) {
            Err(e) => Err(e),
            Ok((bag, n)) => Ok((ConnAckProperties::from_bag(bag), n)),
        }
    }

    /// Whether every value is short enough to be written.
    pub fn check_fits(&self) -> (b: bool)
        ensures
            b == self@.fits(),
    {
        let f5 = match &self.assigned_client_identifier {
            Some(s) => s.as_str().as_bytes().len() <= FIELD_MAX,
            None => true,
        };
        let f7 = match &self.reason_string {
            Some(s) => s.as_str().as_bytes().len() <= FIELD_MAX,
            None => true,
        };
        let f12 = match &self.response_information {
            Some(s) => s.as_str().as_bytes().len() <= FIELD_MAX,
            None => true,
        };
        let f13 = match &self.server_reference {
            Some(s) => s.as_str().as_bytes().len() <= FIELD_MAX,
            None => true,
        };
        let f14 = match &self.authentication_method {
            Some(s) => s.as_str().as_bytes().len() <= FIELD_MAX,
            None => true,
        };
        let f15 = match &self.authentication_data {
            Some(s) => s.len() <= FIELD_MAX,
            None => true,
        };
        f5 && f7 && f12 && f13 && f14 && f15 && check_users_fit(&self.user_properties)
    }

    /// Appends the properties, without the length of the section.
    pub fn encode_body(&self, data: &mut Vec<u8>) -> (res: Result<(), Error>)
        ensures
            self@.fits() ==> res is Ok && final(data)@ == old(data)@ + self@.enc_body(),
            !self@.fits() ==> res == Err::<(), Error>(malformed()),
    {
        reveal(ConnAckPropertiesView::enc_body);
        if !self.check_fits() {
            return Err(Error::malformed());
        }
        let ghost d0 = data@;
        let ghost v = self@;
        let ghost mut acc: Seq<u8> = Seq::empty();
        put_prop_u32(data, PropertyType::SessionExpiryInterval, self.session_expiry_interval);
        proof {
            acc = enc_opt(prop_u32(PropertyType::SessionExpiryInterval, v.session_expiry_interval));
        }
        put_prop_u16(data, PropertyType::ReceiveMaximum, self.receive_maximum);
        proof {
            let e = enc_opt(prop_u16(PropertyType::ReceiveMaximum, v.receive_maximum));
            lemma_append_assoc(d0, acc, e);
            acc = acc + e;
        }
        put_prop_u8(data, PropertyType::MaximumQoS, self.maximum_qos);
        proof {
            let e = enc_opt(prop_u8(PropertyType::MaximumQoS, v.maximum_qos));
            lemma_append_assoc(d0, acc, e);
            acc = acc + e;
        }
        let b3: Option<u8> = match self.retain_available {
            Some(b) => Some(if b {
                1u8
            } else {
                0u8
            }),
            None => None,
        };
        put_prop_u8(data, PropertyType::RetainAvailable, b3);
        proof {
            let e = enc_opt(prop_u8(PropertyType::RetainAvailable, flag_byte(v.retain_available)));
            lemma_append_assoc(d0, acc, e);
            acc = acc + e;
        }
        put_prop_u32(data, PropertyType::MaximumPacketSize, self.max_packet_size);
        proof {
            let e = enc_opt(prop_u32(PropertyType::MaximumPacketSize, v.max_packet_size));
            lemma_append_assoc(d0, acc, e);
            acc = acc + e;
        }
        let _ = put_prop_text(data, PropertyType::AssignedClientIdentifier, opt_str(&self.assigned_client_identifier));
        proof {
            let e = enc_opt(prop_text(PropertyType::AssignedClientIdentifier, v.assigned_client_identifier));
            lemma_append_assoc(d0, acc, e);
            acc = acc + e;
        }
        put_prop_u16(data, PropertyType::TopicAliasMaximum, self.topic_alias_max);
        proof {
            let e = enc_opt(prop_u16(PropertyType::TopicAliasMaximum, v.topic_alias_max));
            lemma_append_assoc(d0, acc, e);
            acc = acc + e;
        }
        let _ = put_prop_text(data, PropertyType::ReasonString, opt_str(&self.reason_string));
        proof {
            let e = enc_opt(prop_text(PropertyType::ReasonString, v.reason_string));
            lemma_append_assoc(d0, acc, e);
            acc = acc + e;
        }
        let b8: Option<u8> = match self.wildcard_subscription_available {
            Some(b) => Some(if b {
                1u8
            } else {
                0u8
            }),
            None => None,
        };
        put_prop_u8(data, PropertyType::WildcardSubscriptionAvailable, b8);
        proof {
            let e = enc_opt(prop_u8(PropertyType::WildcardSubscriptionAvailable, flag_byte(v.wildcard_subscription_available)));
            lemma_append_assoc(d0, acc, e);
            acc = acc + e;
        }
        let b9: Option<u8> = match self.subscription_identifiers_available {
            Some(b) => Some(if b {
                1u8
            } else {
                0u8
            }),
            None => None,
        };
        put_prop_u8(data, PropertyType::SubscriptionIdentifierAvailable, b9);
        proof {
            let e = enc_opt(prop_u8(PropertyType::SubscriptionIdentifierAvailable, flag_byte(v.subscription_identifiers_available)));
            lemma_append_assoc(d0, acc, e);
            acc = acc + e;
        }
        let b10: Option<u8> = match self.shared_subscription_available {
            Some(b) => Some(if b {
                1u8
            } else {
                0u8
            }),
            None => None,
        };
        put_prop_u8(data, PropertyType::SharedSubscriptionAvailable, b10);
        proof {
            let e = enc_opt(prop_u8(PropertyType::SharedSubscriptionAvailable, flag_byte(v.shared_subscription_available)));
            lemma_append_assoc(d0, acc, e);
            acc = acc + e;
        }
        put_prop_u16(data, PropertyType::ServerKeepAlive, self.server_keep_alive);
        proof {
            let e = enc_opt(prop_u16(PropertyType::ServerKeepAlive, v.server_keep_alive));
            lemma_append_assoc(d0, acc, e);
            acc = acc + e;
        }
        let _ = put_prop_text(data, PropertyType::ResponseInformation, opt_str(&self.response_information));
        proof {
            let e = enc_opt(prop_text(PropertyType::ResponseInformation, v.response_information));
            lemma_append_assoc(d0, acc, e);
            acc = acc + e;
        }
        let _ = put_prop_text(data, PropertyType::ServerReference, opt_str(&self.server_reference));
        proof {
            let e = enc_opt(prop_text(PropertyType::ServerReference, v.server_reference));
            lemma_append_assoc(d0, acc, e);
            acc = acc + e;
        }
        let _ = put_prop_text(data, PropertyType::AuthenticationMethod, opt_str(&self.authentication_method));
        proof {
            let e = enc_opt(prop_text(PropertyType::AuthenticationMethod, v.authentication_method));
            lemma_append_assoc(d0, acc, e);
            acc = acc + e;
        }
        let _ = put_prop_binary(data, PropertyType::AuthenticationData, &self.authentication_data);
        proof {
            let e = enc_opt(prop_binary(PropertyType::AuthenticationData, v.authentication_data));
            lemma_append_assoc(d0, acc, e);
            acc = acc + e;
        }
        let _ = put_user_props(data, &self.user_properties);
        proof {
            lemma_append_assoc(d0, acc, enc_users(v.user_properties));
        }
        Ok(())
    }
}

/// The properties of a CONNACK, read back where they were written, are the
/// properties written.
#[verifier::rlimit(40)]
pub proof fn lemma_dec_enc_connack_properties(s: Seq<u8>, i: int, p: ConnAckPropertiesView)
    requires
        p.wf(),
        p.enc_body().len() <= VARU32_MAX,
        has_at(s, i, enc_section(p.enc_body())),
    ensures
        ConnAckPropertiesView::dec(s, i) == Ok::<(ConnAckPropertiesView, int), Error>(
            (p, i + enc_section(p.enc_body()).len()),
        ),
        dec_opt_section(PropCtx::ConnAck, s, i) == Ok::<(Option<PropsView>, int), Error>(
            (
                if p.enc_body().len() == 0 {
                    None
                } else {
                    Some(p.to_bag())
                },
                i + enc_section(p.enc_body()).len(),
            ),
        ),
{
    reveal(ConnAckPropertiesView::enc_body);
    let ctx = PropCtx::ConnAck;
    let body = p.enc_body();
    lemma_section_frame(s, i, body);
    let j = i + varu32_len(body.len() as u32);
    let t = s.subrange(0, j + body.len());
    let bag = p.to_bag();
    let o1 = prop_u32(PropertyType::SessionExpiryInterval, p.session_expiry_interval);
    let o2 = prop_u16(PropertyType::ReceiveMaximum, p.receive_maximum);
    let o3 = prop_u8(PropertyType::MaximumQoS, p.maximum_qos);
    let o4 = prop_u8(PropertyType::RetainAvailable, flag_byte(p.retain_available));
    let o5 = prop_u32(PropertyType::MaximumPacketSize, p.max_packet_size);
    let o6 = prop_text(PropertyType::AssignedClientIdentifier, p.assigned_client_identifier);
    let o7 = prop_u16(PropertyType::TopicAliasMaximum, p.topic_alias_max);
    let o8 = prop_text(PropertyType::ReasonString, p.reason_string);
    let o9 = prop_u8(PropertyType::WildcardSubscriptionAvailable, flag_byte(p.wildcard_subscription_available));
    let o10 = prop_u8(PropertyType::SubscriptionIdentifierAvailable, flag_byte(p.subscription_identifiers_available));
    let o11 = prop_u8(PropertyType::SharedSubscriptionAvailable, flag_byte(p.shared_subscription_available));
    let o12 = prop_u16(PropertyType::ServerKeepAlive, p.server_keep_alive);
    let o13 = prop_text(PropertyType::ResponseInformation, p.response_information);
    let o14 = prop_text(PropertyType::ServerReference, p.server_reference);
    let o15 = prop_text(PropertyType::AuthenticationMethod, p.authentication_method);
    let o16 = prop_binary(PropertyType::AuthenticationData, p.authentication_data);
    let a1 = enc_opt(o1);
    let a2 = a1 + enc_opt(o2);
    let a3 = a2 + enc_opt(o3);
    let a4 = a3 + enc_opt(o4);
    let a5 = a4 + enc_opt(o5);
    let a6 = a5 + enc_opt(o6);
    let a7 = a6 + enc_opt(o7);
    let a8 = a7 + enc_opt(o8);
    let a9 = a8 + enc_opt(o9);
    let a10 = a9 + enc_opt(o10);
    let a11 = a10 + enc_opt(o11);
    let a12 = a11 + enc_opt(o12);
    let a13 = a12 + enc_opt(o13);
    let a14 = a13 + enc_opt(o14);
    let a15 = a14 + enc_opt(o15);
    let a16 = a15 + enc_opt(o16);
    lemma_has_at_split(t, j, a16, enc_users(p.user_properties));
    lemma_has_at_split(t, j, a15, enc_opt(o16));
    lemma_has_at_split(t, j, a14, enc_opt(o15));
    lemma_has_at_split(t, j, a13, enc_opt(o14));
    lemma_has_at_split(t, j, a12, enc_opt(o13));
    lemma_has_at_split(t, j, a11, enc_opt(o12));
    lemma_has_at_split(t, j, a10, enc_opt(o11));
    lemma_has_at_split(t, j, a9, enc_opt(o10));
    lemma_has_at_split(t, j, a8, enc_opt(o9));
    lemma_has_at_split(t, j, a7, enc_opt(o8));
    lemma_has_at_split(t, j, a6, enc_opt(o7));
    lemma_has_at_split(t, j, a5, enc_opt(o6));
    lemma_has_at_split(t, j, a4, enc_opt(o5));
    lemma_has_at_split(t, j, a3, enc_opt(o4));
    lemma_has_at_split(t, j, a2, enc_opt(o3));
    lemma_has_at_split(t, j, a1, enc_opt(o2));
    let b0 = PropsView::empty();
    lemma_step_session_expiry_interval(ctx, t, j, b0, p.session_expiry_interval);
    let b1 = PropsView { session_expiry_interval: p.session_expiry_interval, ..b0 };
    lemma_step_receive_maximum(ctx, t, j + a1.len(), b1, p.receive_maximum);
    let b2 = PropsView { receive_maximum: p.receive_maximum, ..b1 };
    lemma_step_maximum_qos(ctx, t, j + a2.len(), b2, p.maximum_qos);
    let b3 = PropsView { maximum_qos: p.maximum_qos, ..b2 };
    lemma_step_retain_available(ctx, t, j + a3.len(), b3, flag_byte(p.retain_available));
    let b4 = PropsView { retain_available: flag_byte(p.retain_available), ..b3 };
    lemma_step_max_packet_size(ctx, t, j + a4.len(), b4, p.max_packet_size);
    let b5 = PropsView { max_packet_size: p.max_packet_size, ..b4 };
    lemma_step_assigned_client_identifier(ctx, t, j + a5.len(), b5, p.assigned_client_identifier);
    let b6 = PropsView { assigned_client_identifier: p.assigned_client_identifier, ..b5 };
    lemma_step_topic_alias_max(ctx, t, j + a6.len(), b6, p.topic_alias_max);
    let b7 = PropsView { topic_alias_max: p.topic_alias_max, ..b6 };
    lemma_step_reason_string(ctx, t, j + a7.len(), b7, p.reason_string);
    let b8 = PropsView { reason_string: p.reason_string, ..b7 };
    lemma_step_wildcard_subscription_available(ctx, t, j + a8.len(), b8, flag_byte(p.wildcard_subscription_available));
    let b9 = PropsView { wildcard_subscription_available: flag_byte(p.wildcard_subscription_available), ..b8 };
    lemma_step_subscription_identifiers_available(ctx, t, j + a9.len(), b9, flag_byte(p.subscription_identifiers_available));
    let b10 = PropsView { subscription_identifiers_available: flag_byte(p.subscription_identifiers_available), ..b9 };
    lemma_step_shared_subscription_available(ctx, t, j + a10.len(), b10, flag_byte(p.shared_subscription_available));
    let b11 = PropsView { shared_subscription_available: flag_byte(p.shared_subscription_available), ..b10 };
    lemma_step_server_keep_alive(ctx, t, j + a11.len(), b11, p.server_keep_alive);
    let b12 = PropsView { server_keep_alive: p.server_keep_alive, ..b11 };
    lemma_step_response_information(ctx, t, j + a12.len(), b12, p.response_information);
    let b13 = PropsView { response_information: p.response_information, ..b12 };
    lemma_step_server_reference(ctx, t, j + a13.len(), b13, p.server_reference);
    let b14 = PropsView { server_reference: p.server_reference, ..b13 };
    lemma_step_authentication_method(ctx, t, j + a14.len(), b14, p.authentication_method);
    let b15 = PropsView { authentication_method: p.authentication_method, ..b14 };
    lemma_step_authentication_data(ctx, t, j + a15.len(), b15, p.authentication_data);
    let b16 = PropsView { authentication_data: p.authentication_data, ..b15 };
    lemma_dec_props_users(ctx, t, j + a16.len(), b16, p.user_properties);
    assert(b16.user_properties + p.user_properties =~= p.user_properties);
    assert(ConnAckPropertiesView::from_bag(bag) == p);
}

/// Properties of which there is at least one take at least one byte.
pub proof fn lemma_connack_props_nonempty(p: ConnAckPropertiesView)
    requires
        !p.is_empty(),
    ensures
        p.enc_body().len() >= 1,
{
    reveal(ConnAckPropertiesView::enc_body);
    if p.user_properties.len() > 0 {
        lemma_users_nonempty(p.user_properties);
    }
}

/// The properties that a valid section holds are well-formed and take,
/// written again, no more bytes than the section's properties.
pub proof fn lemma_connack_from_bag(bag: PropsView)
    requires
        bag.valid_for(PropCtx::ConnAck),
    ensures
        ConnAckPropertiesView::from_bag(bag).wf(),
        0 <= ConnAckPropertiesView::from_bag(bag).enc_body().len() == bag.size(),
        ConnAckPropertiesView::from_bag(bag).is_empty() == bag.is_empty(),
{
    reveal(ConnAckPropertiesView::enc_body);
}

/// The reason codes that a CONNACK can carry.
pub open spec fn connack_code_valid(c: u8) -> bool {
    c == 0x00 || (0x80 <= c <= 0x8A) || c == 0x8C || c == 0x90 || c == 0x95 || c == 0x97 || c
        == 0x99 || c == 0x9A || c == 0x9B || c == 0x9C || c == 0x9D || c == 0x9F
}

/// CONNACK packet.
#[derive(Clone, Eq, PartialEq, Debug)]
pub struct ConnAck {
    /// Whether the broker resumes a session that it had for the client.
    pub session_present: bool,
    /// The reason code; 0 is "success".
    pub code: u8,
    pub properties: Option<ConnAckProperties>,
}

/// A CONNACK, with text as its bytes.
pub ghost struct ConnAckView {
    pub session_present: bool,
    pub code: u8,
    pub properties: Option<ConnAckPropertiesView>,
}

impl View for ConnAck {
    type V = ConnAckView;

    open spec fn view(&self) -> ConnAckView {
        ConnAckView {
            session_present: self.session_present,
            code: self.code,
            properties: opt_connack_props_view(self.properties),
        }
    }
}

impl ConnAckView {
    /// The bytes of the properties, without the length of their section.
    pub open spec fn props_body(self) -> Seq<u8> {
        match self.properties {
            Some(p) => p.enc_body(),
            None => Seq::empty(),
        }
    }

    /// The flags byte: 1 where a session is present, else 0.
    pub open spec fn flags(self) -> u8 {
        if self.session_present {
            1
        } else {
            0
        }
    }

    /// Everything behind the fixed header: flags, reason code and properties
    /// section.
    pub open spec fn body(self) -> Seq<u8> {
        enc_u8(self.flags()) + enc_u8(self.code) + enc_section(self.props_body())
    }

    pub open spec fn header(self) -> FixedHeader {
        FixedHeader {
            byte1: first_byte(PacketType::ConnAck, 0),
            remaining_len: VarU32(self.body().len() as u32),
        }
    }

    /// The rules that a CONNACK keeps before it is written and after it was
    /// read: its reason code is one that a CONNACK can carry, else it is
    /// malformed; its properties keep the rules on single values, else it is a
    /// protocol error.
    pub open spec fn spec_validate(self) -> Result<(), Error> {
        if !connack_code_valid(self.code) {
            Err(malformed())
        } else if self.properties matches Some(p) && p.spec_validate() is Err {
            Err(protocol_error())
        } else {
            Ok(())
        }
    }

    /// The properties can be written.
    pub open spec fn fits(self) -> bool {
        self.properties matches Some(p) ==> p.fits() && p.enc_body().len() <= VARU32_MAX
    }

    /// The bytes of the packet, or why it cannot be written.
    pub open spec fn spec_encode(self) -> Result<Seq<u8>, Error> {
        match self.spec_validate() {
            Err(e) => Err(e),
            Ok(()) => if !self.fits() || self.body().len() > VARU32_MAX {
                Err(malformed())
            } else {
                Ok(self.header().enc() + self.body())
            },
        }
    }

    /// The CONNACK that stands at position `i`, and the position behind it: a
    /// valid fixed header that announces a CONNACK, a flags byte that is 0 or
    /// 1, a reason code that a CONNACK can carry, and the properties section,
    /// which counts as absent if its length is 0.
    #[verifier::opaque]
    pub open spec fn dec(s: Seq<u8>, i: int) -> Result<(ConnAckView, int), Error> {
        match FixedHeader::dec(s, i) {
            Err(e) => Err(e),
            Ok((fh, n0)) => match fh.spec_validate() {
                Err(e) => Err(e),
                Ok(()) => if fh.spec_packet_type() != Ok::<PacketType, Error>(PacketType::ConnAck) {
                    Err(malformed())
                } else {
                    match dec_u8(s, n0) {
                        Err(e) => Err(e),
                        Ok((flags, n1)) => if flags > 1 {
                            Err(malformed())
                        } else {
                            match dec_u8(s, n1) {
                                Err(e) => Err(e),
                                Ok((code, n2)) => if !connack_code_valid(code) {
                                    Err(malformed())
                                } else {
                                    match dec_opt_section(PropCtx::ConnAck, s, n2) {
                                        Err(e) => Err(e),
                                        Ok((bag, n3)) => Ok(
                                            (
                                                ConnAckView {
                                                    session_present: flags == 1,
                                                    code,
                                                    properties: opt_connack_from_bag(bag),
                                                },
                                                n3,
                                            ),
                                        ),
                                    }
                                },
                            }
                        },
                    }
                },
            },
        }
    }

    /// The CONNACK reads back as itself: its properties, where there are any,
    /// are well-formed and not empty.
    pub open spec fn canonical(self) -> bool {
        self.properties matches Some(p) ==> p.wf() && !p.is_empty()
    }
}

/// Whether `c` is a reason code that a CONNACK can carry.
pub fn is_connack_code(c: u8) -> (b: bool)
    ensures
        b == connack_code_valid(c),
{
    c == 0x00 || (0x80 <= c && c <= 0x8A) || c == 0x8C || c == 0x90 || c == 0x95 || c == 0x97 || c
        == 0x99 || c == 0x9A || c == 0x9B || c == 0x9C || c == 0x9D || c == 0x9F
}

impl ConnAck {
    /// The CONNACK that accepts a connection: "success", without properties.
    pub fn new_success(session_present: bool) -> (c: ConnAck)
        ensures
            c.session_present == session_present,
            c.code == 0,
            c.properties is None,
            c@.spec_validate() is Ok,
    {
        ConnAck { session_present, code: 0, properties: None }
    }

    /// Holds the packet to the rules of a CONNACK.
    pub fn validate(&self) -> (res: Result<(), Error>)
        ensures
            res == self@.spec_validate(),
    {
        if !is_connack_code(self.code) {
            return Err(Error::malformed());
        }
        match &self.properties {
            Some(p) => match p.validate() {
                Err(_) => Err(Error::protocol_error()),
                Ok(()) => Ok(()),
            },
            None => Ok(()),
        }
    }

    /// Reads a CONNACK from the start of `stream`; returns it with the number of
    /// bytes read.
    pub fn decode(stream: &[u8]) -> (res: Result<(ConnAck, usize), Error>)
        ensures
            agrees_view(res, ConnAckView::dec(stream@, 0)),
    {
        reveal(ConnAckView::dec);
        let (fh, n0) = match FixedHeader::decode(stream, 0) {
            Err(e) => {
                return Err(e);
            },
            Ok(x) => x,
        };
        match fh.validate() {
            Err(e) => {
                return Err(e);
            },
            Ok(()) => {},
        }
        match PacketType::try_from_u8(fh.byte1 / 16) {
            Ok(PacketType::ConnAck) => {},
            _ => {
                return Err(Error::malformed());
            },
        }
        let (flags, n1) = match decode_u8(stream, n0) {
            Err(e) => {
                return Err(e);
            },
            Ok(x) => x,
        };
        if flags > 1 {
            return Err(Error::malformed());
        }
        let (code, n2) = match decode_u8(stream, n1) {
            Err(e) => {
                return Err(e);
            },
            Ok(x) => x,
        };
        if !is_connack_code(code) {
            return Err(Error::malformed());
        }
        let (bag, n3) = match PropBag::decode_opt(PropCtx::ConnAck, stream, n2) {
            Err(e) => {
                return Err(e);
            },
            Ok(x) => x,
        };
        let properties = match bag {
            Some(b) => Some(ConnAckProperties::from_bag(b)),
            None => None,
        };
        Ok((ConnAck { session_present: flags == 1, code, properties }, n3))
    }

    /// The bytes of the packet: fixed header, flags, reason code and properties
    /// section. The packet is first held to the rules of `validate`; a value
    /// that is too long to be written and a packet longer than a variable-byte
    /// integer can say are malformed.
    pub fn encode(&self) -> (res: Result<Vec<u8>, Error>)
        ensures
            match res {
                Ok(v) => self@.spec_encode() == Ok::<Seq<u8>, Error>(v@),
                Err(e) => self@.spec_encode() == Err::<Seq<u8>, Error>(e),
            },
    {
        match self.validate() {
            Err(e) => {
                return Err(e);
            },
            Ok(()) => {},
        }
        let mut props: Vec<u8> = Vec::new();
        match &self.properties {
            Some(p) => match p.encode_body(&mut props) {
                Err(e) => {
                    return Err(e);
                },
                Ok(()) => {},
            },
            None => {},
        }
        assert(props@ =~= self@.props_body());
        let section = match wrap_section(props) {
            Err(e) => {
                return Err(e);
            },
            Ok(s) => s,
        };
        let mut data: Vec<u8> = Vec::new();
        put_u8(&mut data, if self.session_present {
            1
        } else {
            0
        });
        put_u8(&mut data, self.code);
        put_raw(&mut data, section.as_slice());
        assert(data@ =~= self@.body());
        if data.len() > VARU32_MAX as usize {
            return Err(Error::malformed());
        }
        let fh = match FixedHeader::new(PacketType::ConnAck, VarU32(data.len() as u32)) {
            Err(e) => {
                return Err(e);
            },
            Ok(fh) => fh,
        };
        let mut out: Vec<u8> = Vec::new();
        let _ = fh.encode_into(&mut out);
        put_raw(&mut out, data.as_slice());
        assert(out@ =~= self@.header().enc() + self@.body());
        Ok(out)
    }
}

/// Reading is the inverse of writing: a CONNACK that `encode` accepts and that
/// is canonical is what `decode` reads from the bytes that `encode` gave, and
/// all of those bytes are read.
#[verifier::rlimit(40)]
pub proof fn law_connack_decode_encode(v: ConnAckView)
    requires
        v.spec_encode() is Ok,
        v.canonical(),
    ensures
        ConnAckView::dec(v.spec_encode()->Ok_0, 0) == Ok::<(ConnAckView, int), Error>(
            (v, v.spec_encode()->Ok_0.len() as int),
        ),
{
    reveal(ConnAckView::dec);
    let s = v.spec_encode()->Ok_0;
    let fh = v.header();
    lemma_has_at_start(fh.enc(), v.body());
    lemma_dec_enc_fixed_header(s, 0, fh);
    lemma_first_byte(PacketType::ConnAck);
    let n0 = fh.enc().len() as int;
    let e1 = enc_u8(v.flags());
    let e2 = enc_u8(v.code);
    lemma_has_at_split(s, n0, e1 + e2, enc_section(v.props_body()));
    lemma_has_at_split(s, n0, e1, e2);
    lemma_dec_enc_u8(s, n0, v.flags());
    lemma_dec_enc_u8(s, n0 + 1, v.code);
    match v.properties {
        Some(p) => {
            lemma_dec_enc_connack_properties(s, n0 + 2, p);
            lemma_connack_props_nonempty(p);
        },
        None => {
            lemma_section_frame(s, n0 + 2, Seq::<u8>::empty());
        },
    }
}

/// Writing is the inverse of reading, up to the form of what was read: a
/// CONNACK that `decode` read from any bytes is canonical, is accepted by
/// `encode` unless its properties are too long for a packet, and is read back
/// from what `encode` gives.
#[verifier::rlimit(40)]
pub proof fn law_connack_encode_decode(b: Seq<u8>)
    requires
        ConnAckView::dec(b, 0) is Ok,
        ConnAckView::dec(b, 0)->Ok_0.0.body().len() <= VARU32_MAX,
    ensures
        ({
            let v = ConnAckView::dec(b, 0)->Ok_0.0;
            &&& v.canonical()
            &&& v.spec_encode() is Ok
            &&& ConnAckView::dec(v.spec_encode()->Ok_0, 0) == Ok::<(ConnAckView, int), Error>(
                (v, v.spec_encode()->Ok_0.len() as int),
            )
        }),
{
    reveal(ConnAckView::dec);
    let v = ConnAckView::dec(b, 0)->Ok_0.0;
    let n0 = FixedHeader::dec(b, 0)->Ok_0.1;
    lemma_dec_section_valid(PropCtx::ConnAck, b, n0 + 2);
    match dec_opt_section(PropCtx::ConnAck, b, n0 + 2)->Ok_0.0 {
        Some(bag) => {
            lemma_connack_from_bag(bag);
        },
        None => {},
    }
    law_connack_decode_encode(v);
}

} // verus!
