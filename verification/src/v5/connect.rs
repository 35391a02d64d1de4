//! The CONNECT packet.

use vstd::prelude::*;
use vstd::utf8::*;
use vstd::string::*;
use crate::error::{Error, malformed, protocol_error, unsupported_version};
use crate::wire::{
    agrees, agrees_view, dec_bytes, dec_string, dec_u16, dec_u8, decode_bytes, decode_string,
    decode_u16, decode_u8, enc_bytes, enc_u16, enc_u8, has_at, is_utf8, lemma_dec_enc_bytes,
    lemma_dec_enc_string, lemma_dec_enc_u16, lemma_dec_enc_u8, lemma_has_at_split,
    lemma_append_assoc, lemma_has_at_start, put_bytes, put_raw, put_string, put_u16, put_u8,
    str_bytes, varu32_len, FIELD_MAX, VARU32_MAX,
};
use crate::v5::{
    first_byte, lemma_dec_enc_fixed_header, lemma_first_byte, opt_bin_view, opt_str_view,
    user_props_view, ClientID, FixedHeader, MqttProtocol, PacketType, PayloadFormat, QoS, TopicName,
    UserProperty, VarU32,
};
use crate::v5::property::{
    dec_opt_section, dec_section, enc_opt, enc_section, enc_users, lemma_dec_section_valid,
    lemma_dec_props_users, lemma_section_frame, opt_fits, opt_str, user_prop,
    lemma_step_session_expiry_interval, lemma_step_receive_maximum, lemma_step_max_packet_size,
    lemma_step_topic_alias_max, lemma_step_request_response_info, lemma_step_request_problem_info,
    lemma_step_authentication_method, lemma_step_authentication_data,
    lemma_step_will_delay_interval, lemma_step_payload_format_indicator,
    lemma_step_message_expiry_interval, lemma_step_content_type, lemma_step_response_topic,
    lemma_step_correlation_data, opt_slice_view, prop_binary, prop_text, prop_u16, prop_u32,
    prop_u8, put_prop_binary, put_prop_text, put_prop_u16, put_prop_u32, put_prop_u8,
    put_user_props, users_fit, users_wf, PropBag, PropCtx, PropertyType, PropsView,
};
use crate::v5::pubaclc::{spec_encode_section, wrap_section};

verus! {

/// The flags byte of a CONNECT.
#[derive(Clone, Copy, Eq, PartialEq, Debug, Structural)]
pub struct ConnectFlags(pub u8);

/// The bit of the flags byte that is reserved and must be 0.
pub const FLAG_RESERVED: u8 = 0x01;

/// The two bits of the flags byte that hold the will's quality of service.
pub const WILL_QOS_MASK: u8 = 0x18;

/// All the flags of `flags` taken together.
pub open spec fn or_all(flags: Seq<ConnectFlags>) -> u8
    decreases flags.len(),
{
    if flags.len() == 0 {
        0
    } else {
        or_all(flags.drop_last()) | flags.last().0
    }
}

impl ConnectFlags {
    // The single flags, as bits of the flags byte.
    pub const CLEAN_START: u8 = 0x02;

    pub const WILL_FLAG: u8 = 0x04;

    pub const WILL_QOS0: u8 = 0x00;

    pub const WILL_QOS1: u8 = 0x08;

    pub const WILL_QOS2: u8 = 0x10;

    pub const WILL_RETAIN: u8 = 0x20;

    pub const USERNAME: u8 = 0x40;

    pub const PASSWORD: u8 = 0x80;

    pub open spec fn spec_is_clean_start(&self) -> bool {
        (self.0 & 0x02) > 0
    }

    pub open spec fn spec_is_will_flag(&self) -> bool {
        (self.0 & 0x04) > 0
    }

    pub open spec fn spec_is_will_retain(&self) -> bool {
        (self.0 & 0x20) > 0
    }

    pub open spec fn spec_is_username(&self) -> bool {
        (self.0 & 0x40) > 0
    }

    pub open spec fn spec_is_password(&self) -> bool {
        (self.0 & 0x80) > 0
    }

    /// The two bits of the will's quality of service, as a number from 0 to 3.
    pub open spec fn will_qos_bits(self) -> u8 {
        (self.0 & WILL_QOS_MASK) >> 3
    }

    /// The reserved bit is 0.
    pub open spec fn spec_validate(self) -> Result<(), Error> {
        if (self.0 & FLAG_RESERVED) > 0 {
            Err(malformed())
        } else {
            Ok(())
        }
    }

    /// The flags byte that has every flag of `flags`.
    pub fn new(flags: &[ConnectFlags]) -> (res: ConnectFlags)
        ensures
            res.0 == or_all(flags@),
    {
        let mut acc: u8 = 0;
        let mut k: usize = 0;
        while k < flags.len()
            invariant
                k <= flags@.len(),
                acc == or_all(flags@.take(k as int)),
            decreases flags@.len() - k,
        {
            proof {
                assert(flags@.take(k + 1).drop_last() =~= flags@.take(k as int));
            }
            acc = acc | flags[k].0;
            k += 1;
        }
        assert(flags@.take(flags@.len() as int) =~= flags@);
        ConnectFlags(acc)
    }

    /// Returns (clean_start, will_flag, will_qos, will_retain).
    pub fn unwrap(&self) -> (res: (bool, bool, QoS, bool))
        requires
            self.will_qos_bits() != 3,
        ensures
            res.0 == self.spec_is_clean_start(),
            res.1 == self.spec_is_will_flag(),
            QoS::spec_from_u8(self.will_qos_bits()) == Ok::<QoS, Error>(res.2),
            res.3 == self.spec_is_will_retain(),
    {
        let clean_start: bool = (self.0 & 0x02) > 0;
        let will_flag: bool = (self.0 & 0x04) > 0;
        let bits: u8 = (self.0 & WILL_QOS_MASK) >> 3;
        let x: u8 = self.0;
        assert(((x & 0x18) >> 3) <= 3) by (bit_vector);
        let will_qos: QoS = if bits == 0 {
            QoS::AtMostOnce
        } else if bits == 1 {
            QoS::AtLeastOnce
        } else {
            QoS::ExactlyOnce
        };
        let will_retain: bool = (self.0 & 0x20) > 0;
        (clean_start, will_flag, will_qos, will_retain)
    }

    #[verifier::when_used_as_spec(spec_is_will_flag)]
    pub fn is_will_flag(&self) -> (b: bool)
        ensures
            b == self.spec_is_will_flag(),
    {
        (self.0 & 0x04) > 0
    }

    #[verifier::when_used_as_spec(spec_is_username)]
    pub fn is_username(&self) -> (b: bool)
        ensures
            b == self.spec_is_username(),
    {
        (self.0 & 0x40) > 0
    }

    #[verifier::when_used_as_spec(spec_is_password)]
    pub fn is_password(&self) -> (b: bool)
        ensures
            b == self.spec_is_password(),
    {
        (self.0 & 0x80) > 0
    }

    /// Refuses a flags byte whose reserved bit is set.
    pub fn validate(&self) -> (res: Result<(), Error>)
        ensures
            res == self.spec_validate(),
    {
        if (self.0 & FLAG_RESERVED) > 0 {
            Err(Error::malformed())
        } else {
            Ok(())
        }
    }

    /// The flags byte read at position `i`.
    pub open spec fn dec(s: Seq<u8>, i: int) -> Result<(ConnectFlags, int), Error> {
        match dec_u8(s, i) {
            Err(e) => Err(e),
            Ok((b, j)) => match ConnectFlags(b).spec_validate() {
                Err(e) => Err(e),
                Ok(()) => Ok((ConnectFlags(b), j)),
            },
        }
    }

    /// Reads the flags byte at `off`.
    pub fn decode(stream: &[u8], off: usize) -> (res: Result<(ConnectFlags, usize), Error>)
        ensures
            agrees(res, Self::dec(stream@, off as int)),
            res matches Ok((f, n)) ==> n == off + 1 && n <= stream@.len(),
    {
        match decode_u8(stream, off) {
            Err(e) => Err(e),
            Ok((b, j)) => {
                let flags = ConnectFlags(b);
                match flags.validate() {
                    Err(e) => Err(e),
                    Ok(()) => Ok((flags, j)),
                }
            },
        }
    }

    /// The flags byte as its one byte; a byte whose reserved bit is set is
    /// refused.
    pub fn encode(&self) -> (res: Result<Vec<u8>, Error>)
        ensures
            match res {
                Ok(v) => self.spec_validate() is Ok && v@ == enc_u8(self.0),
                Err(e) => self.spec_validate() == Err::<(), Error>(e),
            },
    {
        match self.validate() {
            Err(e) => Err(e),
            Ok(()) => {
                let mut data: Vec<u8> = Vec::new();
                put_u8(&mut data, self.0);
                assert(data@ =~= enc_u8(self.0));
                Ok(data)
            },
        }
    }
}

impl Default for ConnectFlags {
    fn default() -> (f: ConnectFlags)
        ensures
            f.0 == ConnectFlags::CLEAN_START,
    {
        ConnectFlags(0x02)
    }
}

/// A flag as the byte that a property carries.
pub open spec fn flag_byte(v: Option<bool>) -> Option<u8> {
    match v {
        Some(b) => Some(if b {
            1u8
        } else {
            0u8
        }),
        None => None,
    }
}

/// The flag that the byte of a property stands for.
pub open spec fn byte_flag(v: Option<u8>) -> Option<bool> {
    match v {
        Some(b) => Some(b != 0),
        None => None,
    }
}

/// The name of a topic that may be absent, as its bytes.
pub open spec fn opt_topic_view(t: Option<TopicName>) -> Option<Seq<u8>> {
    match t {
        Some(t) => Some(t@),
        None => None,
    }
}

/// Collection of MQTT properties allowed in a CONNECT packet.
#[derive(Debug, Clone, Eq, PartialEq)]
pub struct ConnectProperties {
    /// 0 disables expiry, 0xFFFFFFFF means never.
    pub session_expiry_interval: Option<u32>,
    /// Defaults to 65535; 0 is not allowed.
    pub receive_maximum: Option<u16>,
    /// Defaults to what the protocol allows; 0 is not allowed.
    pub max_packet_size: Option<u32>,
    /// Defaults to 0.
    pub topic_alias_max: Option<u16>,
    pub request_response_info: Option<bool>,
    pub request_problem_info: Option<bool>,
    pub authentication_method: Option<String>,
    pub authentication_data: Option<Vec<u8>>,
    pub user_properties: Vec<UserProperty>,
}

/// The properties of a CONNECT, with text as its bytes.
pub ghost struct ConnectPropertiesView {
    pub session_expiry_interval: Option<u32>,
    pub receive_maximum: Option<u16>,
    pub max_packet_size: Option<u32>,
    pub topic_alias_max: Option<u16>,
    pub request_response_info: Option<bool>,
    pub request_problem_info: Option<bool>,
    pub authentication_method: Option<Seq<u8>>,
    pub authentication_data: Option<Seq<u8>>,
    pub user_properties: Seq<(Seq<u8>, Seq<u8>)>,
}

impl View for ConnectProperties {
    type V = ConnectPropertiesView;

    open spec fn view(&self) -> ConnectPropertiesView {
        ConnectPropertiesView {
            session_expiry_interval: self.session_expiry_interval,
            receive_maximum: self.receive_maximum,
            max_packet_size: self.max_packet_size,
            topic_alias_max: self.topic_alias_max,
            request_response_info: self.request_response_info,
            request_problem_info: self.request_problem_info,
            authentication_method: opt_str_view(self.authentication_method),
            authentication_data: opt_bin_view(self.authentication_data),
            user_properties: user_props_view(self.user_properties@),
        }
    }
}

impl ConnectPropertiesView {
    pub open spec fn from_bag(bag: PropsView) -> ConnectPropertiesView {
        ConnectPropertiesView {
            session_expiry_interval: bag.session_expiry_interval,
            receive_maximum: bag.receive_maximum,
            max_packet_size: bag.max_packet_size,
            topic_alias_max: bag.topic_alias_max,
            request_response_info: byte_flag(bag.request_response_info),
            request_problem_info: byte_flag(bag.request_problem_info),
            authentication_method: bag.authentication_method,
            authentication_data: bag.authentication_data,
            user_properties: bag.user_properties,
        }
    }

    pub open spec fn to_bag(self) -> PropsView {
        PropsView {
            session_expiry_interval: self.session_expiry_interval,
            receive_maximum: self.receive_maximum,
            max_packet_size: self.max_packet_size,
            topic_alias_max: self.topic_alias_max,
            request_response_info: flag_byte(self.request_response_info),
            request_problem_info: flag_byte(self.request_problem_info),
            authentication_method: self.authentication_method,
            authentication_data: self.authentication_data,
            user_properties: self.user_properties,
            ..PropsView::empty()
        }
    }

    pub open spec fn is_empty(self) -> bool {
        &&& self.session_expiry_interval is None
        &&& self.receive_maximum is None
        &&& self.max_packet_size is None
        &&& self.topic_alias_max is None
        &&& self.request_response_info is None
        &&& self.request_problem_info is None
        &&& self.authentication_method is None
        &&& self.authentication_data is None
        &&& self.user_properties.len() == 0
    }

    /// Every value is short enough to be written.
    pub open spec fn fits(self) -> bool {
        &&& opt_fits(prop_text(PropertyType::AuthenticationMethod, self.authentication_method))
        &&& opt_fits(prop_binary(PropertyType::AuthenticationData, self.authentication_data))
        &&& users_fit(self.user_properties)
    }

    /// A receive maximum and a maximum packet size, where given, are not 0.
    pub open spec fn spec_validate(self) -> Result<(), Error> {
        if self.receive_maximum == Some(0u16) || self.max_packet_size == Some(0u32) {
            Err(protocol_error())
        } else {
            Ok(())
        }
    }

    /// Every value keeps the rules, can be written, and is UTF-8 where it is
    /// text.
    pub open spec fn wf(self) -> bool {
        &&& self.spec_validate() is Ok
        &&& self.fits()
        &&& (self.authentication_method matches Some(m) ==> valid_utf8(m))
        &&& users_wf(self.user_properties)
    }

    /// The properties one behind the other, in the order of the fields.
    #[verifier::opaque]
    pub open spec fn enc_body(self) -> Seq<u8> {
        enc_opt(prop_u32(PropertyType::SessionExpiryInterval, self.session_expiry_interval))
            + enc_opt(prop_u16(PropertyType::ReceiveMaximum, self.receive_maximum)) + enc_opt(
            prop_u32(PropertyType::MaximumPacketSize, self.max_packet_size),
        ) + enc_opt(prop_u16(PropertyType::TopicAliasMaximum, self.topic_alias_max)) + enc_opt(
            prop_u8(PropertyType::RequestResponseInformation, flag_byte(self.request_response_info)),
        ) + enc_opt(
            prop_u8(PropertyType::RequestProblemInformation, flag_byte(self.request_problem_info)),
        ) + enc_opt(prop_text(PropertyType::AuthenticationMethod, self.authentication_method))
            + enc_opt(prop_binary(PropertyType::AuthenticationData, self.authentication_data))
            + enc_users(self.user_properties)
    }

    /// The properties section read at position `i`.
    pub open spec fn dec(s: Seq<u8>, i: int) -> Result<(ConnectPropertiesView, int), Error> {
        match dec_section(PropCtx::Connect, s, i) {
            Err(e) => Err(e),
            Ok((bag, n)) => Ok((ConnectPropertiesView::from_bag(bag), n)),
        }
    }
}

impl Default for ConnectProperties {
    fn default() -> (p: ConnectProperties)
        ensures
            p@.is_empty(),
    {
        ConnectProperties {
            session_expiry_interval: None,
            receive_maximum: None,
            max_packet_size: None,
            topic_alias_max: None,
            request_response_info: None,
            request_problem_info: None,
            authentication_method: None,
            authentication_data: None,
            user_properties: Vec::new(),
        }
    }
}

impl ConnectProperties {
    /// The receive maximum of a client that names none.
    pub const RECEIVE_MAXIMUM: u16 = 65535;

    /// The topic alias maximum of a client that names none.
    pub const TOPIC_ALIAS_MAXIMUM: u16 = 0;

    fn from_bag(bag: PropBag) -> (p: ConnectProperties)
        ensures
            p@ == ConnectPropertiesView::from_bag(bag@),
    {
        ConnectProperties {
            session_expiry_interval: bag.session_expiry_interval,
            receive_maximum: bag.receive_maximum,
            max_packet_size: bag.max_packet_size,
            topic_alias_max: bag.topic_alias_max,
            request_response_info: match bag.request_response_info {
                Some(b) => Some(b != 0),
                None => None,
            },
            request_problem_info: match bag.request_problem_info {
                Some(b) => Some(b != 0),
                None => None,
            },
            authentication_method: bag.authentication_method,
            authentication_data: bag.authentication_data,
            user_properties: bag.user_properties,
        }
    }

    pub fn session_expiry_interval(&self) -> (res: Option<u32>)
        ensures
            res == self.session_expiry_interval,
    {
        self.session_expiry_interval
    }

    /// The receive maximum, 65535 where the client named none.
    pub fn receive_maximum(&self) -> (res: u16)
        ensures
            res == match self.receive_maximum {
                Some(v) => v,
                None => 65535u16,
            },
    {
        match self.receive_maximum {
            Some(v) => v,
            None => Self::RECEIVE_MAXIMUM,
        }
    }

    /// The topic alias maximum, where the client named one that is not 0.
    pub fn topic_alias_max(&self) -> (res: Option<u16>)
        ensures
            res == match self.topic_alias_max {
                Some(v) => if v == 0 {
                    None
                } else {
                    Some(v)
                },
                None => None,
            },
    {
        match self.topic_alias_max {
            Some(0) | None => None,
            Some(v) => Some(v),
        }
    }

    /// Whether the client asks for response information; it does not unless it
    /// says so.
    pub fn request_response_info(&self) -> (res: bool)
        ensures
            res == (self.request_response_info == Some(true)),
    {
        match self.request_response_info {
            Some(b) => b,
            None => false,
        }
    }

    /// Whether the client asks for reason strings and user properties on
    /// failures; it does unless it says otherwise.
    pub fn request_problem_info(&self) -> (res: bool)
        ensures
            res == (self.request_problem_info != Some(false)),
    {
        match self.request_problem_info {
            Some(b) => b,
            None => true,
        }
    }

    /// Whether no property is set.
    pub fn is_empty(&self) -> (b: bool)
        ensures
            b == self@.is_empty(),
    {
        self.session_expiry_interval.is_none() && self.receive_maximum.is_none()
            && self.max_packet_size.is_none() && self.topic_alias_max.is_none()
            && self.request_response_info.is_none() && self.request_problem_info.is_none()
            && self.authentication_method.is_none() && self.authentication_data.is_none()
            && self.user_properties.len() == 0
    }

    /// Refuses a receive maximum and a maximum packet size of 0.
    pub fn validate(&self) -> (res: Result<(), Error>)
        ensures
            res == self@.spec_validate(),
    {
        let rm_zero = match self.receive_maximum {
            Some(v) => v == 0,
            None => false,
        };
        let mp_zero = match self.max_packet_size {
            Some(v) => v == 0,
            None => false,
        };
        if rm_zero || mp_zero {
            Err(Error::protocol_error())
        } else {
            Ok(())
        }
    }

    /// Reads the properties section that starts at `off`. A property that a
    /// CONNECT does not allow, a property that comes twice, a receive maximum or
    /// a maximum packet size of 0 and a request flag other than 0 or 1 are
    /// protocol errors.
    pub fn decode(stream: &[u8], off: usize) -> (res: Result<(ConnectProperties, usize), Error>)
        ensures
            agrees_view(res, ConnectPropertiesView::dec(stream@, off as int)),
    {
        match PropBag::decode(PropCtx::Connect, stream, off) {
            Err(e) => Err(e),
            Ok((bag, n)) => Ok((ConnectProperties::from_bag(bag), n)),
        }
    }

    /// Appends the properties, without the length of the section.
    pub fn encode_body(&self, data: &mut Vec<u8>) -> (res: Result<(), Error>)
        ensures
            self@.fits() ==> res is Ok && final(data)@ == old(data)@ + self@.enc_body(),
            !self@.fits() ==> res == Err::<(), Error>(malformed()),
    {
        reveal(ConnectPropertiesView::enc_body);
        if !self.check_fits() {
            return Err(Error::malformed());
        }
        let ghost d0 = data@;
        let ghost v = self@;
        put_prop_u32(data, PropertyType::SessionExpiryInterval, self.session_expiry_interval);
        let ghost a1 = enc_opt(
            prop_u32(PropertyType::SessionExpiryInterval, v.session_expiry_interval),
        );
        put_prop_u16(data, PropertyType::ReceiveMaximum, self.receive_maximum);
        let ghost e2 = enc_opt(prop_u16(PropertyType::ReceiveMaximum, v.receive_maximum));
        proof {
            lemma_append_assoc(d0, a1, e2);
        }
        put_prop_u32(data, PropertyType::MaximumPacketSize, self.max_packet_size);
        let ghost e3 = enc_opt(prop_u32(PropertyType::MaximumPacketSize, v.max_packet_size));
        proof {
            lemma_append_assoc(d0, a1 + e2, e3);
        }
        put_prop_u16(data, PropertyType::TopicAliasMaximum, self.topic_alias_max);
        let ghost e4 = enc_opt(prop_u16(PropertyType::TopicAliasMaximum, v.topic_alias_max));
        proof {
            lemma_append_assoc(d0, a1 + e2 + e3, e4);
        }
        let rri: Option<u8> = match self.request_response_info {
            Some(b) => Some(if b {
                1u8
            } else {
                0u8
            }),
            None => None,
        };
        put_prop_u8(data, PropertyType::RequestResponseInformation, rri);
        let ghost e5 = enc_opt(
            prop_u8(PropertyType::RequestResponseInformation, flag_byte(v.request_response_info)),
        );
        proof {
            lemma_append_assoc(d0, a1 + e2 + e3 + e4, e5);
        }
        let rpi: Option<u8> = match self.request_problem_info {
            Some(b) => Some(if b {
                1u8
            } else {
                0u8
            }),
            None => None,
        };
        put_prop_u8(data, PropertyType::RequestProblemInformation, rpi);
        let ghost e6 = enc_opt(
            prop_u8(PropertyType::RequestProblemInformation, flag_byte(v.request_problem_info)),
        );
        proof {
            lemma_append_assoc(d0, a1 + e2 + e3 + e4 + e5, e6);
        }
        let _ = put_prop_text(
            data,
            PropertyType::AuthenticationMethod,
            opt_str(&self.authentication_method),
        );
        let ghost e7 = enc_opt(
            prop_text(PropertyType::AuthenticationMethod, v.authentication_method),
        );
        proof {
            lemma_append_assoc(d0, a1 + e2 + e3 + e4 + e5 + e6, e7);
        }
        let _ = put_prop_binary(data, PropertyType::AuthenticationData, &self.authentication_data);
        let ghost e8 = enc_opt(
            prop_binary(PropertyType::AuthenticationData, v.authentication_data),
        );
        proof {
            lemma_append_assoc(d0, a1 + e2 + e3 + e4 + e5 + e6 + e7, e8);
        }
        let _ = put_user_props(data, &self.user_properties);
        proof {
            lemma_append_assoc(
                d0,
                a1 + e2 + e3 + e4 + e5 + e6 + e7 + e8,
                enc_users(v.user_properties),
            );
        }
        Ok(())
    }

    /// Whether every value is short enough to be written.
    pub fn check_fits(&self) -> (b: bool)
        ensures
            b == self@.fits(),
    {
        let m = match &self.authentication_method {
            Some(s) => s.as_str().as_bytes().len() <= FIELD_MAX,
            None => true,
        };
        let d = match &self.authentication_data {
            Some(s) => s.len() <= FIELD_MAX,
            None => true,
        };
        m && d && check_users_fit(&self.user_properties)
    }

    /// The properties section: its length, then the properties.
    pub fn encode(&self) -> (res: Result<Vec<u8>, Error>)
        ensures
            match res {
                Ok(v) => spec_encode_section(self@.fits(), self@.enc_body()) == Ok::<
                    Seq<u8>,
                    Error,
                >(v@),
                Err(e) => spec_encode_section(self@.fits(), self@.enc_body()) == Err::<
                    Seq<u8>,
                    Error,
                >(e),
            },
    {
        let mut body: Vec<u8> = Vec::new();
        match self.encode_body(&mut body) {
            Err(e) => {
                return Err(e);
            },
            Ok(()) => {},
        }
        assert(body@ =~= self@.enc_body());
        wrap_section(body)
    }
}

/// The properties of a CONNECT, read back where they were written, are the
/// properties written.
#[verifier::rlimit(40)]
pub proof fn lemma_dec_enc_connect_properties(s: Seq<u8>, i: int, p: ConnectPropertiesView)
    requires
        p.wf(),
        p.enc_body().len() <= VARU32_MAX,
        has_at(s, i, enc_section(p.enc_body())),
    ensures
        dec_section(PropCtx::Connect, s, i) == Ok::<(PropsView, int), Error>(
            (p.to_bag(), i + enc_section(p.enc_body()).len()),
        ),
        ConnectPropertiesView::dec(s, i) == Ok::<(ConnectPropertiesView, int), Error>(
            (p, i + enc_section(p.enc_body()).len()),
        ),
{
    reveal(ConnectPropertiesView::enc_body);
    let ctx = PropCtx::Connect;
    let body = p.enc_body();
    lemma_section_frame(s, i, body);
    let j = i + varu32_len(body.len() as u32);
    let t = s.subrange(0, j + body.len());
    let bag = p.to_bag();
    let o1 = prop_u32(PropertyType::SessionExpiryInterval, p.session_expiry_interval);
    let o2 = prop_u16(PropertyType::ReceiveMaximum, p.receive_maximum);
    let o3 = prop_u32(PropertyType::MaximumPacketSize, p.max_packet_size);
    let o4 = prop_u16(PropertyType::TopicAliasMaximum, p.topic_alias_max);
    let o5 = prop_u8(PropertyType::RequestResponseInformation, flag_byte(p.request_response_info));
    let o6 = prop_u8(PropertyType::RequestProblemInformation, flag_byte(p.request_problem_info));
    let o7 = prop_text(PropertyType::AuthenticationMethod, p.authentication_method);
    let o8 = prop_binary(PropertyType::AuthenticationData, p.authentication_data);
    let a1 = enc_opt(o1);
    let a2 = a1 + enc_opt(o2);
    let a3 = a2 + enc_opt(o3);
    let a4 = a3 + enc_opt(o4);
    let a5 = a4 + enc_opt(o5);
    let a6 = a5 + enc_opt(o6);
    let a7 = a6 + enc_opt(o7);
    let a8 = a7 + enc_opt(o8);
    lemma_has_at_split(t, j, a8, enc_users(p.user_properties));
    lemma_has_at_split(t, j, a7, enc_opt(o8));
    lemma_has_at_split(t, j, a6, enc_opt(o7));
    lemma_has_at_split(t, j, a5, enc_opt(o6));
    lemma_has_at_split(t, j, a4, enc_opt(o5));
    lemma_has_at_split(t, j, a3, enc_opt(o4));
    lemma_has_at_split(t, j, a2, enc_opt(o3));
    lemma_has_at_split(t, j, a1, enc_opt(o2));
    let b0 = PropsView::empty();
    lemma_step_session_expiry_interval(ctx, t, j, b0, p.session_expiry_interval);
    let b1 = PropsView { session_expiry_interval: p.session_expiry_interval, ..b0 };
    lemma_step_receive_maximum(ctx, t, j + a1.len(), b1, p.receive_maximum);
    let b2 = PropsView { receive_maximum: p.receive_maximum, ..b1 };
    lemma_step_max_packet_size(ctx, t, j + a2.len(), b2, p.max_packet_size);
    let b3 = PropsView { max_packet_size: p.max_packet_size, ..b2 };
    lemma_step_topic_alias_max(ctx, t, j + a3.len(), b3, p.topic_alias_max);
    let b4 = PropsView { topic_alias_max: p.topic_alias_max, ..b3 };
    lemma_step_request_response_info(
        ctx,
        t,
        j + a4.len(),
        b4,
        flag_byte(p.request_response_info),
    );
    let b5 = PropsView { request_response_info: flag_byte(p.request_response_info), ..b4 };
    lemma_step_request_problem_info(ctx, t, j + a5.len(), b5, flag_byte(p.request_problem_info));
    let b6 = PropsView { request_problem_info: flag_byte(p.request_problem_info), ..b5 };
    lemma_step_authentication_method(ctx, t, j + a6.len(), b6, p.authentication_method);
    let b7 = PropsView { authentication_method: p.authentication_method, ..b6 };
    lemma_step_authentication_data(ctx, t, j + a7.len(), b7, p.authentication_data);
    let b8 = PropsView { authentication_data: p.authentication_data, ..b7 };
    lemma_dec_props_users(ctx, t, j + a8.len(), b8, p.user_properties);
    assert(b8.user_properties + p.user_properties =~= p.user_properties);
    assert(ConnectPropertiesView::from_bag(bag) == p);
}

/// Whether every user property is short enough to be written.
pub fn check_users_fit(us: &Vec<UserProperty>) -> (b: bool)
    ensures
        b == users_fit(user_props_view(us@)),
{
    let ghost view = user_props_view(us@);
    let mut k: usize = 0;
    while k < us.len()
        invariant
            k <= us@.len(),
            view == user_props_view(us@),
            users_fit(view.take(k as int)),
        decreases us@.len() - k,
    {
        let u = &us[k];
        if u.0.as_str().as_bytes().len() > FIELD_MAX || u.1.as_str().as_bytes().len() > FIELD_MAX {
            assert(!user_prop(view[k as int]).value.fits());
            return false;
        }
        proof {
            let next = view.take(k + 1);
            assert forall|j: int| 0 <= j < next.len() implies (#[trigger] user_prop(
                next[j],
            )).value.fits() by {
                if j < k {
                    assert(view.take(k as int)[j] == next[j]);
                }
            }
        }
        k += 1;
    }
    assert(view.take(us@.len() as int) =~= view);
    true
}

/// A payload format as the byte that the property carries; the format
/// "binary" is the default and is carried by no property.
pub open spec fn format_byte(f: PayloadFormat) -> Option<u8> {
    if f == PayloadFormat::Utf8 {
        Some(1u8)
    } else {
        None
    }
}

/// The payload format that the property, or its absence, stands for.
pub open spec fn byte_format(b: Option<u8>) -> PayloadFormat {
    if b == Some(1u8) {
        PayloadFormat::Utf8
    } else {
        PayloadFormat::Binary
    }
}

/// The name of the topic in `v` as a slice.
pub fn opt_topic_str(v: &Option<TopicName>) -> (res: Option<&str>)
    ensures
        opt_slice_view(res) == opt_topic_view(*v),
{
    match v {
        Some(t) => Some(t.0.as_str()),
        None => None,
    }
}

/// Will properties carried in the payload of a CONNECT.
#[derive(Clone, Eq, PartialEq, Debug)]
pub struct WillProperties {
    pub will_delay_interval: Option<u32>,
    /// "Binary" unless the client says otherwise.
    pub payload_format_indicator: PayloadFormat,
    pub message_expiry_interval: Option<u32>,
    pub content_type: Option<String>,
    pub response_topic: Option<TopicName>,
    pub correlation_data: Option<Vec<u8>>,
    pub user_properties: Vec<UserProperty>,
}

/// The will properties, with text as its bytes.
pub ghost struct WillPropertiesView {
    pub will_delay_interval: Option<u32>,
    pub payload_format_indicator: PayloadFormat,
    pub message_expiry_interval: Option<u32>,
    pub content_type: Option<Seq<u8>>,
    pub response_topic: Option<Seq<u8>>,
    pub correlation_data: Option<Seq<u8>>,
    pub user_properties: Seq<(Seq<u8>, Seq<u8>)>,
}

impl View for WillProperties {
    type V = WillPropertiesView;

    open spec fn view(&self) -> WillPropertiesView {
        WillPropertiesView {
            will_delay_interval: self.will_delay_interval,
            payload_format_indicator: self.payload_format_indicator,
            message_expiry_interval: self.message_expiry_interval,
            content_type: opt_str_view(self.content_type),
            response_topic: opt_topic_view(self.response_topic),
            correlation_data: opt_bin_view(self.correlation_data),
            user_properties: user_props_view(self.user_properties@),
        }
    }
}

impl WillPropertiesView {
    pub open spec fn from_bag(bag: PropsView) -> WillPropertiesView {
        WillPropertiesView {
            will_delay_interval: bag.will_delay_interval,
            payload_format_indicator: byte_format(bag.payload_format_indicator),
            message_expiry_interval: bag.message_expiry_interval,
            content_type: bag.content_type,
            response_topic: bag.response_topic,
            correlation_data: bag.correlation_data,
            user_properties: bag.user_properties,
        }
    }

    pub open spec fn to_bag(self) -> PropsView {
        PropsView {
            will_delay_interval: self.will_delay_interval,
            payload_format_indicator: format_byte(self.payload_format_indicator),
            message_expiry_interval: self.message_expiry_interval,
            content_type: self.content_type,
            response_topic: self.response_topic,
            correlation_data: self.correlation_data,
            user_properties: self.user_properties,
            ..PropsView::empty()
        }
    }

    pub open spec fn is_empty(self) -> bool {
        &&& self.will_delay_interval is None
        &&& self.payload_format_indicator == PayloadFormat::Binary
        &&& self.message_expiry_interval is None
        &&& self.content_type is None
        &&& self.response_topic is None
        &&& self.correlation_data is None
        &&& self.user_properties.len() == 0
    }

    /// Every value is short enough to be written.
    pub open spec fn fits(self) -> bool {
        &&& opt_fits(prop_text(PropertyType::ContentType, self.content_type))
        &&& opt_fits(prop_text(PropertyType::ResponseTopic, self.response_topic))
        &&& opt_fits(prop_binary(PropertyType::CorrelationData, self.correlation_data))
        &&& users_fit(self.user_properties)
    }

    /// Every value can be written and is UTF-8 where it is text.
    pub open spec fn wf(self) -> bool {
        &&& self.fits()
        &&& (self.content_type matches Some(m) ==> valid_utf8(m))
        &&& (self.response_topic matches Some(m) ==> valid_utf8(m))
        &&& users_wf(self.user_properties)
    }

    /// The properties one behind the other, in the order of the fields; the
    /// payload format is written only where it is "UTF-8".
    #[verifier::opaque]
    pub open spec fn enc_body(self) -> Seq<u8> {
        enc_opt(prop_u32(PropertyType::WillDelayInterval, self.will_delay_interval)) + enc_opt(
            prop_u8(PropertyType::PayloadFormatIndicator, format_byte(self.payload_format_indicator)),
        ) + enc_opt(prop_u32(PropertyType::MessageExpiryInterval, self.message_expiry_interval))
            + enc_opt(prop_text(PropertyType::ContentType, self.content_type)) + enc_opt(
            prop_text(PropertyType::ResponseTopic, self.response_topic),
        ) + enc_opt(prop_binary(PropertyType::CorrelationData, self.correlation_data))
            + enc_users(self.user_properties)
    }

    /// The properties section read at position `i`.
    pub open spec fn dec(s: Seq<u8>, i: int) -> Result<(WillPropertiesView, int), Error> {
        match dec_section(PropCtx::Will, s, i) {
            Err(e) => Err(e),
            Ok((bag, n)) => Ok((WillPropertiesView::from_bag(bag), n)),
        }
    }
}

impl Default for WillProperties {
    fn default() -> (p: WillProperties)
        ensures
            p@.is_empty(),
    {
        WillProperties {
            will_delay_interval: None,
            payload_format_indicator: PayloadFormat::Binary,
            message_expiry_interval: None,
            content_type: None,
            response_topic: None,
            correlation_data: None,
            user_properties: Vec::new(),
        }
    }
}

impl WillProperties {
    /// The will delay of a client that names none.
    pub const WILL_DELAY_INTERVAL: u32 = 0;

    fn from_bag(bag: PropBag) -> (p: WillProperties)
        ensures
            p@ == WillPropertiesView::from_bag(bag@),
    {
        WillProperties {
            will_delay_interval: bag.will_delay_interval,
            payload_format_indicator: match bag.payload_format_indicator {
                Some(1) => PayloadFormat::Utf8,
                _ => PayloadFormat::Binary,
            },
            message_expiry_interval: bag.message_expiry_interval,
            content_type: bag.content_type,
            response_topic: match bag.response_topic {
                Some(t) => Some(TopicName(t)),
                None => None,
            },
            correlation_data: bag.correlation_data,
            user_properties: bag.user_properties,
        }
    }

    /// The will delay in seconds, 0 where the client named none.
    pub fn will_delay_interval(&self) -> (res: u32)
        ensures
            res == match self.will_delay_interval {
                Some(v) => v,
                None => 0u32,
            },
    {
        match self.will_delay_interval {
            Some(v) => v,
            None => Self::WILL_DELAY_INTERVAL,
        }
    }

    /// Whether the will's payload is declared to be UTF-8 text.
    pub fn is_utf8(&self) -> (b: bool)
        ensures
            b == (self.payload_format_indicator == PayloadFormat::Utf8),
    {
        self.payload_format_indicator.is_utf8()
    }

    /// Whether no property is set.
    pub fn is_empty(&self) -> (b: bool)
        ensures
            b == self@.is_empty(),
    {
        self.will_delay_interval.is_none() && !self.payload_format_indicator.is_utf8()
            && self.message_expiry_interval.is_none() && self.content_type.is_none()
            && self.response_topic.is_none() && self.correlation_data.is_none()
            && self.user_properties.len() == 0
    }

    /// Reads the properties section that starts at `off`. A property that a will
    /// does not allow and a property that comes twice are protocol errors; a
    /// payload format other than 0 or 1 is malformed.
    pub fn decode(stream: &[u8], off: usize) -> (res: Result<(WillProperties, usize), Error>)
        ensures
            agrees_view(res, WillPropertiesView::dec(stream@, off as int)),
    {
        match PropBag::decode(PropCtx::Will, stream, off) {
            Err(e) => Err(e),
            Ok((bag, n)) => Ok((WillProperties::from_bag(bag), n)),
        }
    }

    /// Whether every value is short enough to be written.
    pub fn check_fits(&self) -> (b: bool)
        ensures
            b == self@.fits(),
    {
        let c = match &self.content_type {
            Some(s) => s.as_str().as_bytes().len() <= FIELD_MAX,
            None => true,
        };
        let r = match &self.response_topic {
            Some(s) => s.0.as_str().as_bytes().len() <= FIELD_MAX,
            None => true,
        };
        let d = match &self.correlation_data {
            Some(s) => s.len() <= FIELD_MAX,
            None => true,
        };
        c && r && d && check_users_fit(&self.user_properties)
    }

    /// Appends the properties, without the length of the section.
    pub fn encode_body(&self, data: &mut Vec<u8>) -> (res: Result<(), Error>)
        ensures
            self@.fits() ==> res is Ok && final(data)@ == old(data)@ + self@.enc_body(),
            !self@.fits() ==> res == Err::<(), Error>(malformed()),
    {
        reveal(WillPropertiesView::enc_body);
        if !self.check_fits() {
            return Err(Error::malformed());
        }
        let ghost d0 = data@;
        let ghost v = self@;
        put_prop_u32(data, PropertyType::WillDelayInterval, self.will_delay_interval);
        let ghost a1 = enc_opt(prop_u32(PropertyType::WillDelayInterval, v.will_delay_interval));
        let pfi: Option<u8> = if self.payload_format_indicator.is_utf8() {
            Some(1u8)
        } else {
            None
        };
        put_prop_u8(data, PropertyType::PayloadFormatIndicator, pfi);
        let ghost e2 = enc_opt(
            prop_u8(PropertyType::PayloadFormatIndicator, format_byte(v.payload_format_indicator)),
        );
        proof {
            lemma_append_assoc(d0, a1, e2);
        }
        put_prop_u32(data, PropertyType::MessageExpiryInterval, self.message_expiry_interval);
        let ghost e3 = enc_opt(
            prop_u32(PropertyType::MessageExpiryInterval, v.message_expiry_interval),
        );
        proof {
            lemma_append_assoc(d0, a1 + e2, e3);
        }
        let _ = put_prop_text(data, PropertyType::ContentType, opt_str(&self.content_type));
        let ghost e4 = enc_opt(prop_text(PropertyType::ContentType, v.content_type));
        proof {
            lemma_append_assoc(d0, a1 + e2 + e3, e4);
        }
        let _ = put_prop_text(
            data,
            PropertyType::ResponseTopic,
            opt_topic_str(&self.response_topic),
        );
        let ghost e5 = enc_opt(prop_text(PropertyType::ResponseTopic, v.response_topic));
        proof {
            lemma_append_assoc(d0, a1 + e2 + e3 + e4, e5);
        }
        let _ = put_prop_binary(data, PropertyType::CorrelationData, &self.correlation_data);
        let ghost e6 = enc_opt(prop_binary(PropertyType::CorrelationData, v.correlation_data));
        proof {
            lemma_append_assoc(d0, a1 + e2 + e3 + e4 + e5, e6);
        }
        let _ = put_user_props(data, &self.user_properties);
        proof {
            lemma_append_assoc(d0, a1 + e2 + e3 + e4 + e5 + e6, enc_users(v.user_properties));
        }
        Ok(())
    }

    /// The properties section: its length, then the properties.
    pub fn encode(&self) -> (res: Result<Vec<u8>, Error>)
        ensures
            match res {
                Ok(v) => spec_encode_section(self@.fits(), self@.enc_body()) == Ok::<
                    Seq<u8>,
                    Error,
                >(v@),
                Err(e) => spec_encode_section(self@.fits(), self@.enc_body()) == Err::<
                    Seq<u8>,
                    Error,
                >(e),
            },
    {
        let mut body: Vec<u8> = Vec::new();
        match self.encode_body(&mut body) {
            Err(e) => {
                return Err(e);
            },
            Ok(()) => {},
        }
        assert(body@ =~= self@.enc_body());
        wrap_section(body)
    }
}

/// Will properties, read back where they were written, are the properties
/// written.
#[verifier::rlimit(40)]
pub proof fn lemma_dec_enc_will_properties(s: Seq<u8>, i: int, p: WillPropertiesView)
    requires
        p.wf(),
        p.enc_body().len() <= VARU32_MAX,
        has_at(s, i, enc_section(p.enc_body())),
    ensures
        dec_section(PropCtx::Will, s, i) == Ok::<(PropsView, int), Error>(
            (p.to_bag(), i + enc_section(p.enc_body()).len()),
        ),
        WillPropertiesView::dec(s, i) == Ok::<(WillPropertiesView, int), Error>(
            (p, i + enc_section(p.enc_body()).len()),
        ),
{
    reveal(WillPropertiesView::enc_body);
    let ctx = PropCtx::Will;
    let body = p.enc_body();
    lemma_section_frame(s, i, body);
    let j = i + varu32_len(body.len() as u32);
    let t = s.subrange(0, j + body.len());
    let bag = p.to_bag();
    let o1 = prop_u32(PropertyType::WillDelayInterval, p.will_delay_interval);
    let o2 = prop_u8(PropertyType::PayloadFormatIndicator, format_byte(p.payload_format_indicator));
    let o3 = prop_u32(PropertyType::MessageExpiryInterval, p.message_expiry_interval);
    let o4 = prop_text(PropertyType::ContentType, p.content_type);
    let o5 = prop_text(PropertyType::ResponseTopic, p.response_topic);
    let o6 = prop_binary(PropertyType::CorrelationData, p.correlation_data);
    let a1 = enc_opt(o1);
    let a2 = a1 + enc_opt(o2);
    let a3 = a2 + enc_opt(o3);
    let a4 = a3 + enc_opt(o4);
    let a5 = a4 + enc_opt(o5);
    let a6 = a5 + enc_opt(o6);
    lemma_has_at_split(t, j, a6, enc_users(p.user_properties));
    lemma_has_at_split(t, j, a5, enc_opt(o6));
    lemma_has_at_split(t, j, a4, enc_opt(o5));
    lemma_has_at_split(t, j, a3, enc_opt(o4));
    lemma_has_at_split(t, j, a2, enc_opt(o3));
    lemma_has_at_split(t, j, a1, enc_opt(o2));
    let b0 = PropsView::empty();
    lemma_step_will_delay_interval(ctx, t, j, b0, p.will_delay_interval);
    let b1 = PropsView { will_delay_interval: p.will_delay_interval, ..b0 };
    lemma_step_payload_format_indicator(
        ctx,
        t,
        j + a1.len(),
        b1,
        format_byte(p.payload_format_indicator),
    );
    let b2 = PropsView { payload_format_indicator: format_byte(p.payload_format_indicator), ..b1 };
    lemma_step_message_expiry_interval(ctx, t, j + a2.len(), b2, p.message_expiry_interval);
    let b3 = PropsView { message_expiry_interval: p.message_expiry_interval, ..b2 };
    lemma_step_content_type(ctx, t, j + a3.len(), b3, p.content_type);
    let b4 = PropsView { content_type: p.content_type, ..b3 };
    lemma_step_response_topic(ctx, t, j + a4.len(), b4, p.response_topic);
    let b5 = PropsView { response_topic: p.response_topic, ..b4 };
    lemma_step_correlation_data(ctx, t, j + a5.len(), b5, p.correlation_data);
    let b6 = PropsView { correlation_data: p.correlation_data, ..b5 };
    lemma_dec_props_users(ctx, t, j + a6.len(), b6, p.user_properties);
    assert(b6.user_properties + p.user_properties =~= p.user_properties);
    assert(WillPropertiesView::from_bag(bag) == p);
}

/// The bytes of the protocol name "MQTT".
pub open spec fn mqtt_name() -> Seq<u8> {
    seq![0x4Du8, 0x51u8, 0x54u8, 0x54u8]
}

/// Payload in a CONNECT packet.
#[derive(Clone, Eq, PartialEq, Debug)]
pub struct ConnectPayload {
    pub client_id: ClientID,
    pub will_properties: Option<WillProperties>,
    pub will_topic: Option<TopicName>,
    pub will_payload: Option<Vec<u8>>,
    pub username: Option<String>,
    pub password: Option<Vec<u8>>,
}

/// The payload of a CONNECT, with text as its bytes.
pub ghost struct ConnectPayloadView {
    pub client_id: Seq<u8>,
    pub will_properties: Option<WillPropertiesView>,
    pub will_topic: Option<Seq<u8>>,
    pub will_payload: Option<Seq<u8>>,
    pub username: Option<Seq<u8>>,
    pub password: Option<Seq<u8>>,
}

/// The view of will properties that may be absent.
pub open spec fn opt_will_view(p: Option<WillProperties>) -> Option<WillPropertiesView> {
    match p {
        Some(p) => Some(p@),
        None => None,
    }
}

/// The view of CONNECT properties that may be absent.
pub open spec fn opt_connect_props_view(p: Option<ConnectProperties>) -> Option<
    ConnectPropertiesView,
> {
    match p {
        Some(p) => Some(p@),
        None => None,
    }
}

impl View for ConnectPayload {
    type V = ConnectPayloadView;

    open spec fn view(&self) -> ConnectPayloadView {
        ConnectPayloadView {
            client_id: self.client_id@,
            will_properties: opt_will_view(self.will_properties),
            will_topic: opt_topic_view(self.will_topic),
            will_payload: opt_bin_view(self.will_payload),
            username: opt_str_view(self.username),
            password: opt_bin_view(self.password),
        }
    }
}

/// CONNECT packet.
#[derive(Debug, Clone, Eq, PartialEq)]
pub struct Connect {
    pub protocol_name: String,
    pub protocol_version: MqttProtocol,
    pub flags: ConnectFlags,
    pub keep_alive: u16,
    pub properties: Option<ConnectProperties>,
    pub payload: ConnectPayload,
}

/// A CONNECT, with text as its bytes.
pub ghost struct ConnectView {
    pub protocol_name: Seq<u8>,
    pub protocol_version: MqttProtocol,
    pub flags: ConnectFlags,
    pub keep_alive: u16,
    pub properties: Option<ConnectPropertiesView>,
    pub payload: ConnectPayloadView,
}

impl View for Connect {
    type V = ConnectView;

    open spec fn view(&self) -> ConnectView {
        ConnectView {
            protocol_name: str_bytes(self.protocol_name@),
            protocol_version: self.protocol_version,
            flags: self.flags,
            keep_alive: self.keep_alive,
            properties: opt_connect_props_view(self.properties),
            payload: self.payload@,
        }
    }
}

/// A string read at position `i` if one is `present`.
pub open spec fn dec_opt_string(s: Seq<u8>, i: int, present: bool) -> Result<
    (Option<Seq<u8>>, int),
    Error,
> {
    if present {
        match dec_string(s, i) {
            Err(e) => Err(e),
            Ok((v, n)) => Ok((Some(v), n)),
        }
    } else {
        Ok((None, i))
    }
}

/// Binary data read at position `i` if it is `present`.
pub open spec fn dec_opt_bytes(s: Seq<u8>, i: int, present: bool) -> Result<
    (Option<Seq<u8>>, int),
    Error,
> {
    if present {
        match dec_bytes(s, i) {
            Err(e) => Err(e),
            Ok((v, n)) => Ok((Some(v), n)),
        }
    } else {
        Ok((None, i))
    }
}

/// The will properties read at position `i` if a will is `present`. A will
/// has a properties section, and a section that holds no property gives
/// properties that say nothing, not none.
pub open spec fn dec_opt_will(s: Seq<u8>, i: int, present: bool) -> Result<
    (Option<WillPropertiesView>, int),
    Error,
> {
    if present {
        match WillPropertiesView::dec(s, i) {
            Err(e) => Err(e),
            Ok((p, n)) => Ok((Some(p), n)),
        }
    } else {
        Ok((None, i))
    }
}

/// The bytes of binary data or text that may be absent.
pub open spec fn enc_opt_bytes(b: Option<Seq<u8>>) -> Seq<u8> {
    match b {
        Some(b) => enc_bytes(b),
        None => Seq::empty(),
    }
}

/// Binary data or text that may be absent is short enough to be written.
pub open spec fn opt_bytes_fit(b: Option<Seq<u8>>) -> bool {
    match b {
        Some(b) => b.len() <= FIELD_MAX,
        None => true,
    }
}

/// Text that may be absent is UTF-8.
pub open spec fn opt_text_valid(b: Option<Seq<u8>>) -> bool {
    match b {
        Some(b) => valid_utf8(b),
        None => true,
    }
}

impl ConnectPayloadView {
    /// The payload read at position `i` of a CONNECT with the flags `flags`:
    /// the client identifier; if the will flag is set, will properties, will
    /// topic and will payload; if the flags say so, user name and password.
    pub open spec fn dec(s: Seq<u8>, i: int, flags: ConnectFlags) -> Result<
        (ConnectPayloadView, int),
        Error,
    > {
        match dec_string(s, i) {
            Err(e) => Err(e),
            Ok((client_id, n1)) => match dec_opt_will(s, n1, flags.spec_is_will_flag()) {
                Err(e) => Err(e),
                Ok((will_properties, n2)) => match dec_opt_string(
                    s,
                    n2,
                    flags.spec_is_will_flag(),
                ) {
                    Err(e) => Err(e),
                    Ok((will_topic, n3)) => match dec_opt_bytes(s, n3, flags.spec_is_will_flag()) {
                        Err(e) => Err(e),
                        Ok((will_payload, n4)) => match dec_opt_string(
                            s,
                            n4,
                            flags.spec_is_username(),
                        ) {
                            Err(e) => Err(e),
                            Ok((username, n5)) => match dec_opt_bytes(
                                s,
                                n5,
                                flags.spec_is_password(),
                            ) {
                                Err(e) => Err(e),
                                Ok((password, n6)) => Ok(
                                    (
                                        ConnectPayloadView {
                                            client_id,
                                            will_properties,
                                            will_topic,
                                            will_payload,
                                            username,
                                            password,
                                        },
                                        n6,
                                    ),
                                ),
                            },
                        },
                    },
                },
            },
        }
    }

    /// The bytes of the will properties section, if there are will properties.
    pub open spec fn will_section(self) -> Seq<u8> {
        match self.will_properties {
            Some(p) => enc_section(p.enc_body()),
            None => Seq::empty(),
        }
    }

    /// The bytes of the payload: every field that is there, in order.
    pub open spec fn enc(self) -> Seq<u8> {
        enc_bytes(self.client_id) + self.will_section() + enc_opt_bytes(self.will_topic)
            + enc_opt_bytes(self.will_payload) + enc_opt_bytes(self.username) + enc_opt_bytes(
            self.password,
        )
    }

    /// Every field is short enough to be written.
    pub open spec fn fits(self) -> bool {
        &&& self.client_id.len() <= FIELD_MAX
        &&& (self.will_properties matches Some(p) ==> p.fits() && p.enc_body().len()
            <= VARU32_MAX)
        &&& opt_bytes_fit(self.will_topic)
        &&& opt_bytes_fit(self.will_payload)
        &&& opt_bytes_fit(self.username)
        &&& opt_bytes_fit(self.password)
    }

    /// The payload holds exactly the fields that `flags` announces, its text is
    /// UTF-8, and will properties, where there are any, are well-formed.
    pub open spec fn canonical(self, flags: ConnectFlags) -> bool {
        &&& valid_utf8(self.client_id)
        &&& opt_text_valid(self.will_topic)
        &&& opt_text_valid(self.username)
        &&& (self.will_properties matches Some(p) ==> p.wf())
        &&& (self.will_properties is Some) == flags.spec_is_will_flag()
        &&& (self.will_topic is Some) == flags.spec_is_will_flag()
        &&& (self.will_payload is Some) == flags.spec_is_will_flag()
        &&& (self.username is Some) == flags.spec_is_username()
        &&& (self.password is Some) == flags.spec_is_password()
    }
}

/// The variable header of a CONNECT.
pub ghost struct ConnectHead {
    pub protocol_name: Seq<u8>,
    pub protocol_version: MqttProtocol,
    pub flags: ConnectFlags,
    pub keep_alive: u16,
    pub properties: Option<ConnectPropertiesView>,
}

/// The CONNECT properties that a bag holds, if there is a bag.
pub open spec fn opt_connect_from_bag(b: Option<PropsView>) -> Option<ConnectPropertiesView> {
    match b {
        Some(b) => Some(ConnectPropertiesView::from_bag(b)),
        None => None,
    }
}

impl ConnectHead {
    /// The variable header read at position `i`: protocol name, protocol
    /// version, flags, keep-alive and properties. A properties section of
    /// length 0 counts as absent.
    pub open spec fn dec(s: Seq<u8>, i: int) -> Result<(ConnectHead, int), Error> {
        match dec_string(s, i) {
            Err(e) => Err(e),
            Ok((protocol_name, n1)) => match dec_u8(s, n1) {
                Err(e) => Err(e),
                Ok((ver, n2)) => match MqttProtocol::spec_from_u8(ver) {
                    Err(e) => Err(e),
                    Ok(protocol_version) => match ConnectFlags::dec(s, n2) {
                        Err(e) => Err(e),
                        Ok((flags, n3)) => match dec_u16(s, n3) {
                            Err(e) => Err(e),
                            Ok((keep_alive, n4)) => match dec_opt_section(PropCtx::Connect, s, n4) {
                                Err(e) => Err(e),
                                Ok((bag, n5)) => Ok(
                                    (
                                        ConnectHead {
                                            protocol_name,
                                            protocol_version,
                                            flags,
                                            keep_alive,
                                            properties: opt_connect_from_bag(bag),
                                        },
                                        n5,
                                    ),
                                ),
                            },
                        },
                    },
                },
            },
        }
    }
}

impl ConnectView {
    /// The bytes of the properties, without the length of their section.
    pub open spec fn props_body(self) -> Seq<u8> {
        match self.properties {
            Some(p) => p.enc_body(),
            None => Seq::empty(),
        }
    }

    /// The bytes of the variable header.
    pub open spec fn head(self) -> Seq<u8> {
        enc_bytes(self.protocol_name) + enc_u8(self.protocol_version.spec_to_u8()) + enc_u8(
            self.flags.0,
        ) + enc_u16(self.keep_alive) + enc_section(self.props_body())
    }

    /// Everything behind the fixed header.
    pub open spec fn body(self) -> Seq<u8> {
        self.head() + self.payload.enc()
    }

    pub open spec fn header(self) -> FixedHeader {
        FixedHeader {
            byte1: first_byte(PacketType::Connect, 0),
            remaining_len: VarU32(self.body().len() as u32),
        }
    }

    /// The rules that a CONNECT keeps before it is written and after it was
    /// read, in the order in which they are checked.
    ///
    /// The protocol is "MQTT" in version 5, else the error says "unsupported
    /// protocol version". The reserved flag is 0 and the will's quality of
    /// service is not 3, else the packet is malformed. With the will flag set,
    /// will topic, will properties and will payload are all there, and a receive
    /// maximum and a maximum packet size are not 0, else it is a protocol
    /// error. A will payload that its properties declare to be UTF-8 is UTF-8,
    /// else the packet is malformed.
    pub open spec fn spec_validate(self) -> Result<(), Error> {
        if self.protocol_name != mqtt_name() {
            Err(unsupported_version())
        } else if self.protocol_version != MqttProtocol::V5 {
            Err(unsupported_version())
        } else if self.flags.spec_validate() is Err {
            Err(malformed())
        } else if self.flags.will_qos_bits() == 3 {
            Err(malformed())
        } else if self.flags.spec_is_will_flag() && (self.payload.will_topic is None
            || self.payload.will_properties is None || self.payload.will_payload is None) {
            Err(protocol_error())
        } else if self.properties matches Some(p) && p.spec_validate() is Err {
            Err(protocol_error())
        } else if self.will_text_broken() {
            Err(malformed())
        } else {
            Ok(())
        }
    }

    /// The will properties say that the will payload is UTF-8, and it is not.
    pub open spec fn will_text_broken(self) -> bool {
        &&& self.payload.will_properties matches Some(p)
        &&& p.payload_format_indicator == PayloadFormat::Utf8
        &&& self.payload.will_payload matches Some(b)
        &&& !valid_utf8(b)
    }

    /// Every field is short enough to be written.
    pub open spec fn fits(self) -> bool {
        &&& self.protocol_name.len() <= FIELD_MAX
        &&& (self.properties matches Some(p) ==> p.fits() && p.enc_body().len() <= VARU32_MAX)
        &&& self.payload.fits()
    }

    /// The bytes of the packet, or why it cannot be written.
    pub open spec fn spec_encode(self) -> Result<Seq<u8>, Error> {
        match self.spec_validate() {
            Err(e) => Err(e),
            Ok(()) => if !self.fits() || self.body().len() > VARU32_MAX {
                Err(malformed())
            } else {
                Ok(self.header().enc() + self.body())
            },
        }
    }

    /// The CONNECT that stands at position `i`, and the position behind it: a
    /// valid fixed header, the variable header, the payload that the flags
    /// announce; the whole is then held to the rules of `spec_validate`.
    #[verifier::opaque]
    pub open spec fn dec(s: Seq<u8>, i: int) -> Result<(ConnectView, int), Error> {
        match FixedHeader::dec(s, i) {
            Err(e) => Err(e),
            Ok((fh, n0)) => match fh.spec_validate() {
                Err(e) => Err(e),
                Ok(()) => match ConnectHead::dec(s, n0) {
                    Err(e) => Err(e),
                    Ok((h, n1)) => match ConnectPayloadView::dec(s, n1, h.flags) {
                        Err(e) => Err(e),
                        Ok((payload, n2)) => {
                            let v = ConnectView {
                                protocol_name: h.protocol_name,
                                protocol_version: h.protocol_version,
                                flags: h.flags,
                                keep_alive: h.keep_alive,
                                properties: h.properties,
                                payload,
                            };
                            match v.spec_validate() {
                                Err(e) => Err(e),
                                Ok(()) => Ok((v, n2)),
                            }
                        },
                    },
                },
            },
        }
    }

    /// The CONNECT reads back as itself: its text is UTF-8, its payload holds
    /// what its flags announce, and properties, where there are any, are
    /// well-formed and not empty.
    pub open spec fn canonical(self) -> bool {
        &&& (self.properties matches Some(p) ==> p.wf() && !p.is_empty())
        &&& self.payload.canonical(self.flags)
    }

    /// The CONNECT without properties that hold nothing.
    pub open spec fn normalized(self) -> ConnectView {
        ConnectView {
            properties: match self.properties {
                Some(p) => if p.is_empty() {
                    None
                } else {
                    Some(p)
                },
                None => None,
            },
            payload: ConnectPayloadView {
                will_properties: match self.payload.will_properties {
                    Some(p) => if p.is_empty() {
                        None
                    } else {
                        Some(p)
                    },
                    None => None,
                },
                ..self.payload
            },
            ..self
        }
    }
}

/// Reads a string at `off` if one is `present`.
pub fn decode_opt_string(stream: &[u8], off: usize, present: bool) -> (res: Result<
    (Option<String>, usize),
    Error,
>)
    ensures
        match res {
            Ok((v, n)) => dec_opt_string(stream@, off as int, present) == Ok::<
                (Option<Seq<u8>>, int),
                Error,
            >((opt_str_view(v), n as int)),
            Err(e) => dec_opt_string(stream@, off as int, present) == Err::<
                (Option<Seq<u8>>, int),
                Error,
            >(e),
        },
{
    if present {
        match decode_string(stream, off) {
            Err(e) => Err(e),
            Ok((v, n)) => Ok((Some(v), n)),
        }
    } else {
        Ok((None, off))
    }
}

/// Reads binary data at `off` if it is `present`.
pub fn decode_opt_bytes(stream: &[u8], off: usize, present: bool) -> (res: Result<
    (Option<Vec<u8>>, usize),
    Error,
>)
    ensures
        match res {
            Ok((v, n)) => dec_opt_bytes(stream@, off as int, present) == Ok::<
                (Option<Seq<u8>>, int),
                Error,
            >((opt_bin_view(v), n as int)),
            Err(e) => dec_opt_bytes(stream@, off as int, present) == Err::<
                (Option<Seq<u8>>, int),
                Error,
            >(e),
        },
{
    if present {
        match decode_bytes(stream, off) {
            Err(e) => Err(e),
            Ok((v, n)) => Ok((Some(v), n)),
        }
    } else {
        Ok((None, off))
    }
}

/// Reads will properties at `off` if a will is `present`.
pub fn decode_opt_will(stream: &[u8], off: usize, present: bool) -> (res: Result<
    (Option<WillProperties>, usize),
    Error,
>)
    ensures
        match res {
            Ok((v, n)) => dec_opt_will(stream@, off as int, present) == Ok::<
                (Option<WillPropertiesView>, int),
                Error,
            >((opt_will_view(v), n as int)),
            Err(e) => dec_opt_will(stream@, off as int, present) == Err::<
                (Option<WillPropertiesView>, int),
                Error,
            >(e),
        },
{
    if present {
        match WillProperties::decode(stream, off) {
            Err(e) => Err(e),
            Ok((p, n)) => Ok((Some(p), n)),
        }
    } else {
        Ok((None, off))
    }
}

/// Appends text that may be absent, behind its length; text that is too long
/// is refused.
pub fn put_opt_string(data: &mut Vec<u8>, v: Option<&str>) -> (res: Result<(), Error>)
    ensures
        opt_bytes_fit(opt_slice_view(v)) ==> res is Ok && final(data)@ == old(data)@
            + enc_opt_bytes(opt_slice_view(v)),
        !opt_bytes_fit(opt_slice_view(v)) ==> res == Err::<(), Error>(malformed()),
{
    match v {
        Some(v) => put_string(data, v),
        None => {
            assert(data@ =~= old(data)@ + enc_opt_bytes(None));
            Ok(())
        },
    }
}

/// Appends binary data that may be absent, behind its length; data that is
/// too long is refused.
pub fn put_opt_bytes(data: &mut Vec<u8>, v: &Option<Vec<u8>>) -> (res: Result<(), Error>)
    ensures
        opt_bytes_fit(opt_bin_view(*v)) ==> res is Ok && final(data)@ == old(data)@
            + enc_opt_bytes(opt_bin_view(*v)),
        !opt_bytes_fit(opt_bin_view(*v)) ==> res == Err::<(), Error>(malformed()),
{
    match v {
        Some(v) => put_bytes(data, v.as_slice()),
        None => {
            assert(data@ =~= old(data)@ + enc_opt_bytes(None));
            Ok(())
        },
    }
}

impl ClientID {
    /// A client identifier made of a fresh random UUID: the hyphenated form
    /// of some UUID, whichever came.
    pub fn new_uuid_v4() -> (id: ClientID)
        ensures
            exists|v: u128| id@ == #[trigger] crate::ident::hyphenated(v),
            id@.len() == 36,
    {
        ClientID(crate::ident::uuid_text(crate::ident::random_uuid()))
    }
}

impl Default for ConnectPayload {
    fn default() -> (p: ConnectPayload)
        ensures
            p@.client_id.len() == 36,
            p@.will_properties is None,
            p@.will_topic is None,
            p@.will_payload is None,
            p@.username is None,
            p@.password is None,
    {
        ConnectPayload {
            client_id: ClientID::new_uuid_v4(),
            will_properties: None,
            will_topic: None,
            will_payload: None,
            username: None,
            password: None,
        }
    }
}

impl ConnectPayload {
    /// Reads the payload of a CONNECT with the flags `flags` at `off`.
    pub fn decode(stream: &[u8], off: usize, flags: ConnectFlags) -> (res: Result<
        (ConnectPayload, usize),
        Error,
    >)
        ensures
            agrees_view(res, ConnectPayloadView::dec(stream@, off as int, flags)),
    {
        let will_flag = flags.is_will_flag();
        let (client_id, n1) = match decode_string(stream, off) {
            Err(e) => {
                return Err(e);
            },
            Ok(x) => x,
        };
        let (will_properties, n2) = match decode_opt_will(stream, n1, will_flag) {
            Err(e) => {
                return Err(e);
            },
            Ok(x) => x,
        };
        let (will_topic, n3) = match decode_opt_string(stream, n2, will_flag) {
            Err(e) => {
                return Err(e);
            },
            Ok(x) => x,
        };
        let (will_payload, n4) = match decode_opt_bytes(stream, n3, will_flag) {
            Err(e) => {
                return Err(e);
            },
            Ok(x) => x,
        };
        let (username, n5) = match decode_opt_string(stream, n4, flags.is_username()) {
            Err(e) => {
                return Err(e);
            },
            Ok(x) => x,
        };
        let (password, n6) = match decode_opt_bytes(stream, n5, flags.is_password()) {
            Err(e) => {
                return Err(e);
            },
            Ok(x) => x,
        };
        let will_topic = match will_topic {
            Some(t) => Some(TopicName(t)),
            None => None,
        };
        let payload = ConnectPayload {
            client_id: ClientID(client_id),
            will_properties,
            will_topic,
            will_payload,
            username,
            password,
        };
        Ok((payload, n6))
    }

    /// Appends the payload: every field that is there, in order. A field that
    /// is too long to be written is refused.
    pub fn encode_into(&self, data: &mut Vec<u8>) -> (res: Result<(), Error>)
        ensures
            self@.fits() ==> res is Ok && final(data)@ == old(data)@ + self@.enc(),
            !self@.fits() ==> res == Err::<(), Error>(malformed()),
    {
        let ghost d0 = data@;
        let ghost v = self@;
        match put_string(data, self.client_id.0.as_str()) {
            Err(e) => {
                return Err(e);
            },
            Ok(()) => {},
        }
        let ghost a1 = enc_bytes(v.client_id);
        match &self.will_properties {
            Some(p) => {
                let mut props: Vec<u8> = Vec::new();
                match p.encode_body(&mut props) {
                    Err(e) => {
                        return Err(e);
                    },
                    Ok(()) => {},
                }
                assert(props@ =~= p@.enc_body());
                let section = match wrap_section(props) {
                    Err(e) => {
                        return Err(e);
                    },
                    Ok(s) => s,
                };
                put_raw(data, section.as_slice());
            },
            None => {
                assert(data@ =~= d0 + a1 + v.will_section());
            },
        }
        proof {
            lemma_append_assoc(d0, a1, v.will_section());
        }
        match put_opt_string(data, opt_topic_str(&self.will_topic)) {
            Err(e) => {
                return Err(e);
            },
            Ok(()) => {},
        }
        proof {
            lemma_append_assoc(d0, a1 + v.will_section(), enc_opt_bytes(v.will_topic));
        }
        match put_opt_bytes(data, &self.will_payload) {
            Err(e) => {
                return Err(e);
            },
            Ok(()) => {},
        }
        proof {
            lemma_append_assoc(
                d0,
                a1 + v.will_section() + enc_opt_bytes(v.will_topic),
                enc_opt_bytes(v.will_payload),
            );
        }
        match put_opt_string(data, opt_str(&self.username)) {
            Err(e) => {
                return Err(e);
            },
            Ok(()) => {},
        }
        proof {
            lemma_append_assoc(
                d0,
                a1 + v.will_section() + enc_opt_bytes(v.will_topic) + enc_opt_bytes(v.will_payload),
                enc_opt_bytes(v.username),
            );
        }
        match put_opt_bytes(data, &self.password) {
            Err(e) => {
                return Err(e);
            },
            Ok(()) => {},
        }
        proof {
            lemma_append_assoc(
                d0,
                a1 + v.will_section() + enc_opt_bytes(v.will_topic) + enc_opt_bytes(v.will_payload)
                    + enc_opt_bytes(v.username),
                enc_opt_bytes(v.password),
            );
        }
        Ok(())
    }
}

impl Default for Connect {
    fn default() -> (c: Connect)
        ensures
            c@.protocol_name == mqtt_name(),
            c@.protocol_version == MqttProtocol::V5,
            c@.flags.0 == ConnectFlags::CLEAN_START,
            c@.keep_alive == 0,
            c@.properties is None,
            c@.payload.client_id.len() == 36,
            c@.payload.will_properties is None,
            c@.payload.will_topic is None,
            c@.payload.will_payload is None,
            c@.payload.username is None,
            c@.payload.password is None,
    {
        let name = "MQTT".to_string();
        proof {
            reveal_strlit("MQTT");
            is_ascii_chars_encode_utf8("MQTT"@);
            assert(str_bytes(name@) =~= mqtt_name());
        }
        Connect {
            protocol_name: name,
            protocol_version: MqttProtocol::V5,
            flags: ConnectFlags(0x02),
            keep_alive: 0,
            properties: None,
            payload: ConnectPayload::default(),
        }
    }
}

impl Connect {
    /// Drops properties and will properties that hold nothing.
    pub fn normalize(&mut self)
        ensures
            final(self)@ == old(self)@.normalized(),
    {
        let drop_props = match &self.properties {
            Some(p) => p.is_empty(),
            None => false,
        };
        if drop_props {
            self.properties = None;
        }
        let drop_will = match &self.payload.will_properties {
            Some(p) => p.is_empty(),
            None => false,
        };
        if drop_will {
            self.payload.will_properties = None;
        }
    }

    /// Whether the protocol name is "MQTT".
    fn is_mqtt(&self) -> (b: bool)
        ensures
            b == (self@.protocol_name == mqtt_name()),
    {
        let name = self.protocol_name.as_str().as_bytes();
        let b = name.len() == 4 && name[0] == 0x4D && name[1] == 0x51 && name[2] == 0x54
            && name[3] == 0x54;
        proof {
            if b {
                assert(name@ =~= mqtt_name());
            } else if name@.len() == 4 {
                assert(mqtt_name()[0] == 0x4D && mqtt_name()[1] == 0x51 && mqtt_name()[2] == 0x54
                    && mqtt_name()[3] == 0x54);
            }
        }
        b
    }

    /// Whether the will payload is declared to be UTF-8 and is not.
    fn is_will_text_broken(&self) -> (b: bool)
        ensures
            b == self@.will_text_broken(),
    {
        match &self.payload.will_properties {
            Some(p) => if p.is_utf8() {
                match &self.payload.will_payload {
                    Some(bytes) => !is_utf8(bytes.as_slice()),
                    None => false,
                }
            } else {
                false
            },
            None => false,
        }
    }

    /// Holds the packet to the rules of a CONNECT.
    pub fn validate(&self) -> (res: Result<(), Error>)
        ensures
            res == self@.spec_validate(),
    {
        if !self.is_mqtt() {
            return Err(Error::unsupported_version());
        }
        match self.protocol_version {
            MqttProtocol::V5 => {},
            _ => {
                return Err(Error::unsupported_version());
            },
        }
        match self.flags.validate() {
            Err(_) => {
                return Err(Error::malformed());
            },
            Ok(()) => {},
        }
        if (self.flags.0 & WILL_QOS_MASK) >> 3 == 3 {
            return Err(Error::malformed());
        }
        if self.flags.is_will_flag() && (self.payload.will_topic.is_none()
            || self.payload.will_properties.is_none() || self.payload.will_payload.is_none()) {
            return Err(Error::protocol_error());
        }
        match &self.properties {
            Some(p) => match p.validate() {
                Err(_) => {
                    return Err(Error::protocol_error());
                },
                Ok(()) => {},
            },
            None => {},
        }
        if self.is_will_text_broken() {
            return Err(Error::malformed());
        }
        Ok(())
    }

    /// The receive maximum of the client, 65535 where it named none.
    pub open spec fn spec_receive_maximum(&self) -> u16 {
        match self.properties {
            Some(p) => match p.receive_maximum {
                Some(v) => v,
                None => 65535u16,
            },
            None => 65535u16,
        }
    }

    /// The receive maximum of the client, 65535 where it named none.
    #[verifier::when_used_as_spec(spec_receive_maximum)]
    pub fn receive_maximum(&self) -> (res: u16)
        ensures
            res == self.spec_receive_maximum(),
    {
        match &self.properties {
            Some(props) => props.receive_maximum(),
            None => ConnectProperties::RECEIVE_MAXIMUM,
        }
    }

    /// The maximum packet size of the client, `def` where it named none.
    pub fn max_packet_size(&self, def: u32) -> (res: u32)
        ensures
            res == match self.properties {
                Some(p) => match p.max_packet_size {
                    Some(v) => v,
                    None => def,
                },
                None => def,
            },
    {
        match &self.properties {
            Some(props) => match props.max_packet_size {
                Some(max_packet_size) => max_packet_size,
                None => def,
            },
            None => def,
        }
    }

    /// The session expiry interval that the client named, if it named one.
    pub fn session_expiry_interval(&self) -> (res: Option<u32>)
        ensures
            res == match self.properties {
                Some(p) => p.session_expiry_interval,
                None => None,
            },
    {
        match &self.properties {
            Some(props) => props.session_expiry_interval(),
            None => None,
        }
    }

    /// The topic alias maximum that the client named, if it named one that is
    /// not 0.
    pub fn topic_alias_max(&self) -> (res: Option<u16>)
        ensures
            res == match self.properties {
                Some(p) => match p.topic_alias_max {
                    Some(v) => if v == 0 {
                        None
                    } else {
                        Some(v)
                    },
                    None => None,
                },
                None => None,
            },
    {
        match &self.properties {
            Some(props) => props.topic_alias_max(),
            None => None,
        }
    }

    /// Reads the variable header at `off`.
    fn decode_head(stream: &[u8], off: usize) -> (res: Result<
        (String, MqttProtocol, ConnectFlags, u16, Option<ConnectProperties>, usize),
        Error,
    >)
        ensures
            match res {
                Ok((name, ver, flags, ka, props, n)) => ConnectHead::dec(stream@, off as int)
                    == Ok::<(ConnectHead, int), Error>(
                    (
                        ConnectHead {
                            protocol_name: str_bytes(name@),
                            protocol_version: ver,
                            flags,
                            keep_alive: ka,
                            properties: opt_connect_props_view(props),
                        },
                        n as int,
                    ),
                ),
                Err(e) => ConnectHead::dec(stream@, off as int) == Err::<(ConnectHead, int), Error>(
                    e,
                ),
            },
    {
        let (name, n1) = match decode_string(stream, off) {
            Err(e) => {
                return Err(e);
            },
            Ok(x) => x,
        };
        let (ver, n2) = match decode_u8(stream, n1) {
            Err(e) => {
                return Err(e);
            },
            Ok(x) => x,
        };
        let version = match MqttProtocol::try_from_u8(ver) {
            Err(e) => {
                return Err(e);
            },
            Ok(x) => x,
        };
        let (flags, n3) = match ConnectFlags::decode(stream, n2) {
            Err(e) => {
                return Err(e);
            },
            Ok(x) => x,
        };
        let (keep_alive, n4) = match decode_u16(stream, n3) {
            Err(e) => {
                return Err(e);
            },
            Ok(x) => x,
        };
        let (bag, n5) = match PropBag::decode_opt(PropCtx::Connect, stream, n4) {
            Err(e) => {
                return Err(e);
            },
            Ok(x) => x,
        };
        let properties = match bag {
            Some(b) => Some(ConnectProperties::from_bag(b)),
            None => None,
        };
        Ok((name, version, flags, keep_alive, properties, n5))
    }

    /// Reads a CONNECT from the start of `stream`; returns it with the number of
    /// bytes read.
    pub fn decode(stream: &[u8]) -> (res: Result<(Connect, usize), Error>)
        ensures
            agrees_view(res, ConnectView::dec(stream@, 0)),
    {
        reveal(ConnectView::dec);
        let (fh, n0) = match FixedHeader::decode(stream, 0) {
            Err(e) => {
                return Err(e);
            },
            Ok(x) => x,
        };
        match fh.validate() {
            Err(e) => {
                return Err(e);
            },
            Ok(()) => {},
        }
        let (protocol_name, protocol_version, flags, keep_alive, properties, n1) =
            match Self::decode_head(stream, n0) {
            Err(e) => {
                return Err(e);
            },
            Ok(x) => x,
        };
        let (payload, n2) = match ConnectPayload::decode(stream, n1, flags) {
            Err(e) => {
                return Err(e);
            },
            Ok(x) => x,
        };
        let val = Connect { protocol_name, protocol_version, flags, keep_alive, properties, payload };
        match val.validate() {
            Err(e) => Err(e),
            Ok(()) => Ok((val, n2)),
        }
    }

    /// Appends the variable header.
    fn encode_head(&self, data: &mut Vec<u8>) -> (res: Result<(), Error>)
        requires
            old(data)@.len() == 0,
        ensures
            match res {
                Ok(()) => self@.protocol_name.len() <= FIELD_MAX && (self@.properties matches Some(
                    p,
                ) ==> p.fits() && p.enc_body().len() <= VARU32_MAX) && final(data)@
                    == self@.head(),
                Err(e) => e == malformed() && !self@.fits(),
            },
    {
        match put_string(data, self.protocol_name.as_str()) {
            Err(e) => {
                return Err(e);
            },
            Ok(()) => {},
        }
        put_u8(data, self.protocol_version.to_u8());
        put_u8(data, self.flags.0);
        put_u16(data, self.keep_alive);
        let mut props: Vec<u8> = Vec::new();
        match &self.properties {
            Some(p) => match p.encode_body(&mut props) {
                Err(e) => {
                    return Err(e);
                },
                Ok(()) => {},
            },
            None => {},
        }
        assert(props@ =~= self@.props_body());
        let section = match wrap_section(props) {
            Err(e) => {
                return Err(e);
            },
            Ok(s) => s,
        };
        put_raw(data, section.as_slice());
        assert(data@ =~= self@.head());
        Ok(())
    }

    /// The bytes of the packet: fixed header, variable header and payload. The
    /// packet is first held to the rules of `validate`; a field that is too long
    /// to be written and a packet longer than a variable-byte integer can say
    /// are malformed.
    pub fn encode(&self) -> (res: Result<Vec<u8>, Error>)
        ensures
            match res {
                Ok(v) => self@.spec_encode() == Ok::<Seq<u8>, Error>(v@),
                Err(e) => self@.spec_encode() == Err::<Seq<u8>, Error>(e),
            },
    {
        match self.validate() {
            Err(e) => {
                return Err(e);
            },
            Ok(()) => {},
        }
        let mut data: Vec<u8> = Vec::new();
        match self.encode_head(&mut data) {
            Err(e) => {
                return Err(e);
            },
            Ok(()) => {},
        }
        match self.payload.encode_into(&mut data) {
            Err(e) => {
                return Err(e);
            },
            Ok(()) => {},
        }
        if data.len() > VARU32_MAX as usize {
            return Err(Error::malformed());
        }
        let fh = match FixedHeader::new(PacketType::Connect, VarU32(data.len() as u32)) {
            Err(e) => {
                return Err(e);
            },
            Ok(fh) => fh,
        };
        let mut out: Vec<u8> = Vec::new();
        let _ = fh.encode_into(&mut out);
        put_raw(&mut out, data.as_slice());
        assert(out@ =~= self@.header().enc() + self@.body());
        Ok(out)
    }
}

/// User properties of which there is at least one take at least one byte.
pub proof fn lemma_users_nonempty(us: Seq<(Seq<u8>, Seq<u8>)>)
    requires
        us.len() > 0,
    ensures
        enc_users(us).len() >= 1,
{
    assert(enc_users(us) == enc_users(us.drop_last()) + user_prop(us.last()).enc());
}

/// CONNECT properties of which there is at least one take at least one byte.
pub proof fn lemma_connect_props_nonempty(p: ConnectPropertiesView)
    requires
        !p.is_empty(),
    ensures
        p.enc_body().len() >= 1,
{
    reveal(ConnectPropertiesView::enc_body);
    if p.user_properties.len() > 0 {
        lemma_users_nonempty(p.user_properties);
    }
}

/// Binary data that may be absent, read back where it was written, is the
/// data written.
pub proof fn lemma_dec_enc_opt_bytes(s: Seq<u8>, i: int, b: Option<Seq<u8>>, present: bool)
    requires
        (b is Some) == present,
        opt_bytes_fit(b),
        has_at(s, i, enc_opt_bytes(b)),
    ensures
        dec_opt_bytes(s, i, present) == Ok::<(Option<Seq<u8>>, int), Error>(
            (b, i + enc_opt_bytes(b).len()),
        ),
{
    match b {
        Some(x) => {
            lemma_dec_enc_bytes(s, i, x);
        },
        None => {},
    }
}

/// Text that may be absent, read back where it was written, is the text
/// written.
pub proof fn lemma_dec_enc_opt_string(s: Seq<u8>, i: int, b: Option<Seq<u8>>, present: bool)
    requires
        (b is Some) == present,
        opt_bytes_fit(b),
        opt_text_valid(b),
        has_at(s, i, enc_opt_bytes(b)),
    ensures
        dec_opt_string(s, i, present) == Ok::<(Option<Seq<u8>>, int), Error>(
            (b, i + enc_opt_bytes(b).len()),
        ),
{
    match b {
        Some(x) => {
            lemma_dec_enc_string(s, i, x);
            lemma_dec_enc_bytes(s, i, x);
        },
        None => {},
    }
}

/// Will properties that may be absent, read back where they were written, are
/// the ones written.
pub proof fn lemma_dec_enc_opt_will(s: Seq<u8>, i: int, pl: ConnectPayloadView, present: bool)
    requires
        (pl.will_properties is Some) == present,
        pl.will_properties matches Some(p) ==> p.wf() && p.enc_body().len() <= VARU32_MAX,
        has_at(s, i, pl.will_section()),
    ensures
        dec_opt_will(s, i, present) == Ok::<(Option<WillPropertiesView>, int), Error>(
            (pl.will_properties, i + pl.will_section().len()),
        ),
{
    match pl.will_properties {
        Some(p) => {
            lemma_dec_enc_will_properties(s, i, p);
        },
        None => {},
    }
}

/// A canonical payload, read back where it was written, is the payload
/// written.
#[verifier::rlimit(40)]
pub proof fn lemma_dec_enc_payload(s: Seq<u8>, i: int, pl: ConnectPayloadView, flags: ConnectFlags)
    requires
        pl.fits(),
        pl.canonical(flags),
        has_at(s, i, pl.enc()),
    ensures
        ConnectPayloadView::dec(s, i, flags) == Ok::<(ConnectPayloadView, int), Error>(
            (pl, i + pl.enc().len()),
        ),
{
    let e1 = enc_bytes(pl.client_id);
    let e2 = pl.will_section();
    let e3 = enc_opt_bytes(pl.will_topic);
    let e4 = enc_opt_bytes(pl.will_payload);
    let e5 = enc_opt_bytes(pl.username);
    let e6 = enc_opt_bytes(pl.password);
    let a2 = e1 + e2;
    let a3 = a2 + e3;
    let a4 = a3 + e4;
    let a5 = a4 + e5;
    lemma_has_at_split(s, i, a5, e6);
    lemma_has_at_split(s, i, a4, e5);
    lemma_has_at_split(s, i, a3, e4);
    lemma_has_at_split(s, i, a2, e3);
    lemma_has_at_split(s, i, e1, e2);
    let will = flags.spec_is_will_flag();
    let n1 = i + e1.len();
    let n2 = n1 + e2.len();
    let n3 = n2 + e3.len();
    let n4 = n3 + e4.len();
    let n5 = n4 + e5.len();
    let n6 = n5 + e6.len();
    assert(dec_string(s, i) == Ok::<(Seq<u8>, int), Error>((pl.client_id, n1))) by {
        lemma_dec_enc_string(s, i, pl.client_id);
        lemma_dec_enc_bytes(s, i, pl.client_id);
    }
    assert(dec_opt_will(s, n1, will) == Ok::<(Option<WillPropertiesView>, int), Error>(
        (pl.will_properties, n2),
    )) by {
        lemma_dec_enc_opt_will(s, n1, pl, will);
    }
    assert(dec_opt_string(s, n2, will) == Ok::<(Option<Seq<u8>>, int), Error>(
        (pl.will_topic, n3),
    )) by {
        lemma_dec_enc_opt_string(s, n2, pl.will_topic, will);
    }
    assert(dec_opt_bytes(s, n3, will) == Ok::<(Option<Seq<u8>>, int), Error>(
        (pl.will_payload, n4),
    )) by {
        lemma_dec_enc_opt_bytes(s, n3, pl.will_payload, will);
    }
    assert(dec_opt_string(s, n4, flags.spec_is_username()) == Ok::<
        (Option<Seq<u8>>, int),
        Error,
    >((pl.username, n5))) by {
        lemma_dec_enc_opt_string(s, n4, pl.username, flags.spec_is_username());
    }
    assert(dec_opt_bytes(s, n5, flags.spec_is_password()) == Ok::<
        (Option<Seq<u8>>, int),
        Error,
    >((pl.password, n6))) by {
        lemma_dec_enc_opt_bytes(s, n5, pl.password, flags.spec_is_password());
    }
    assert(n6 == i + pl.enc().len());
}

/// The variable header of a canonical CONNECT, read back where it was
/// written, is the one written.
#[verifier::rlimit(40)]
pub proof fn lemma_dec_enc_head(s: Seq<u8>, i: int, v: ConnectView)
    requires
        v.spec_validate() is Ok,
        v.fits(),
        v.properties matches Some(p) ==> p.wf() && !p.is_empty(),
        has_at(s, i, v.head()),
    ensures
        ConnectHead::dec(s, i) == Ok::<(ConnectHead, int), Error>(
            (
                ConnectHead {
                    protocol_name: v.protocol_name,
                    protocol_version: v.protocol_version,
                    flags: v.flags,
                    keep_alive: v.keep_alive,
                    properties: v.properties,
                },
                i + v.head().len(),
            ),
        ),
{
    let e1 = enc_bytes(v.protocol_name);
    let e2 = enc_u8(v.protocol_version.spec_to_u8());
    let e3 = enc_u8(v.flags.0);
    let e4 = enc_u16(v.keep_alive);
    let e5 = enc_section(v.props_body());
    let a2 = e1 + e2;
    let a3 = a2 + e3;
    let a4 = a3 + e4;
    lemma_has_at_split(s, i, a4, e5);
    lemma_has_at_split(s, i, a3, e4);
    lemma_has_at_split(s, i, a2, e3);
    lemma_has_at_split(s, i, e1, e2);
    assert(valid_utf8(v.protocol_name)) by {
        lemma_mqtt_name_utf8();
    }
    lemma_dec_enc_string(s, i, v.protocol_name);
    lemma_dec_enc_bytes(s, i, v.protocol_name);
    lemma_dec_enc_u8(s, i + e1.len(), v.protocol_version.spec_to_u8());
    lemma_dec_enc_u8(s, i + a2.len(), v.flags.0);
    lemma_dec_enc_u16(s, i + a3.len(), v.keep_alive);
    match v.properties {
        Some(p) => {
            lemma_dec_enc_connect_properties(s, i + a4.len(), p);
            lemma_section_frame(s, i + a4.len(), p.enc_body());
            lemma_connect_props_nonempty(p);
        },
        None => {
            lemma_section_frame(s, i + a4.len(), Seq::<u8>::empty());
        },
    }
}

/// The protocol name "MQTT" is UTF-8.
pub proof fn lemma_mqtt_name_utf8()
    ensures
        valid_utf8(mqtt_name()),
{
    reveal_strlit("MQTT");
    is_ascii_chars_encode_utf8("MQTT"@);
    assert(encode_utf8("MQTT"@) =~= mqtt_name());
    encode_utf8_valid_utf8("MQTT"@);
}

/// Reading is the inverse of writing: a CONNECT that `encode` accepts and that
/// is canonical is what `decode` reads from the bytes that `encode` gave, and
/// all of those bytes are read.
#[verifier::rlimit(40)]
pub proof fn law_connect_decode_encode(v: ConnectView)
    requires
        v.spec_encode() is Ok,
        v.canonical(),
    ensures
        ConnectView::dec(v.spec_encode()->Ok_0, 0) == Ok::<(ConnectView, int), Error>(
            (v, v.spec_encode()->Ok_0.len() as int),
        ),
{
    reveal(ConnectView::dec);
    let s = v.spec_encode()->Ok_0;
    let fh = v.header();
    lemma_has_at_start(fh.enc(), v.body());
    lemma_dec_enc_fixed_header(s, 0, fh);
    lemma_first_byte(PacketType::Connect);
    let n0 = fh.enc().len() as int;
    lemma_has_at_split(s, n0, v.head(), v.payload.enc());
    lemma_dec_enc_head(s, n0, v);
    lemma_dec_enc_payload(s, n0 + v.head().len(), v.payload, v.flags);
}

/// The properties that a valid section of a CONNECT holds are well-formed,
/// take the bytes of the section's properties, and are none exactly when the
/// section holds none.
pub proof fn lemma_connect_from_bag(bag: PropsView)
    requires
        bag.valid_for(PropCtx::Connect),
    ensures
        ConnectPropertiesView::from_bag(bag).wf(),
        ConnectPropertiesView::from_bag(bag).enc_body().len() == bag.size(),
        ConnectPropertiesView::from_bag(bag).is_empty() == bag.is_empty(),
{
    reveal(ConnectPropertiesView::enc_body);
}

/// The will properties that a valid section holds are well-formed and take,
/// written again, no more bytes than the section's properties.
pub proof fn lemma_will_from_bag(bag: PropsView)
    requires
        bag.valid_for(PropCtx::Will),
    ensures
        WillPropertiesView::from_bag(bag).wf(),
        WillPropertiesView::from_bag(bag).enc_body().len() <= bag.size(),
{
    reveal(WillPropertiesView::enc_body);
}

/// The variable header that was read has a protocol name that can be
/// written, and properties that are well-formed and, where there are any,
/// not empty.
#[verifier::rlimit(40)]
pub proof fn lemma_head_canonical(s: Seq<u8>, i: int)
    requires
        ConnectHead::dec(s, i) is Ok,
    ensures
        ({
            let h = ConnectHead::dec(s, i)->Ok_0.0;
            &&& h.protocol_name.len() <= FIELD_MAX
            &&& h.properties matches Some(p) ==> p.wf() && !p.is_empty() && p.enc_body().len()
                <= VARU32_MAX
        }),
{
    crate::wire::lemma_enc_dec_bytes(s, i);
    let n1 = dec_string(s, i)->Ok_0.1;
    let n4 = n1 + 4;
    lemma_dec_section_valid(PropCtx::Connect, s, n4);
    match dec_opt_section(PropCtx::Connect, s, n4)->Ok_0.0 {
        Some(bag) => {
            lemma_connect_from_bag(bag);
        },
        None => {},
    }
}

/// The payload that was read holds what the flags announce, and what it
/// holds can be written; its will properties are well-formed.
#[verifier::rlimit(40)]
pub proof fn lemma_payload_canonical(s: Seq<u8>, i: int, flags: ConnectFlags)
    requires
        ConnectPayloadView::dec(s, i, flags) is Ok,
    ensures
        ({
            let pl = ConnectPayloadView::dec(s, i, flags)->Ok_0.0;
            &&& pl.fits()
            &&& valid_utf8(pl.client_id)
            &&& opt_text_valid(pl.will_topic)
            &&& opt_text_valid(pl.username)
            &&& (pl.will_properties matches Some(p) ==> p.wf())
            &&& (pl.will_properties is Some) == flags.spec_is_will_flag()
            &&& (pl.will_topic is Some) == flags.spec_is_will_flag()
            &&& (pl.will_payload is Some) == flags.spec_is_will_flag()
            &&& (pl.username is Some) == flags.spec_is_username()
            &&& (pl.password is Some) == flags.spec_is_password()
        }),
{
    let will = flags.spec_is_will_flag();
    crate::wire::lemma_enc_dec_bytes(s, i);
    let n1 = dec_string(s, i)->Ok_0.1;
    let n2 = dec_opt_will(s, n1, will)->Ok_0.1;
    if will {
        lemma_dec_section_valid(PropCtx::Will, s, n1);
        lemma_will_from_bag(dec_section(PropCtx::Will, s, n1)->Ok_0.0);
    }
    crate::wire::lemma_enc_dec_bytes(s, n2);
    let n3 = dec_opt_string(s, n2, will)->Ok_0.1;
    crate::wire::lemma_enc_dec_bytes(s, n3);
    let n4 = dec_opt_bytes(s, n3, will)->Ok_0.1;
    crate::wire::lemma_enc_dec_bytes(s, n4);
    let n5 = dec_opt_string(s, n4, flags.spec_is_username())->Ok_0.1;
    crate::wire::lemma_enc_dec_bytes(s, n5);
}

/// Writing is the inverse of reading, up to the form of what was read: a
/// CONNECT that `decode` read from any bytes, in whatever form and order its
/// properties stood there, is canonical, is accepted by `encode`, and is read
/// back from what `encode` gives.
///
/// One kind of CONNECT is left out, which is too long to be written: `decode`
/// does not hold a CONNECT to the length that its fixed header names.
#[verifier::rlimit(40)]
pub proof fn law_connect_encode_decode(b: Seq<u8>)
    requires
        ConnectView::dec(b, 0) is Ok,
        ConnectView::dec(b, 0)->Ok_0.0.body().len() <= VARU32_MAX,
    ensures
        ({
            let v = ConnectView::dec(b, 0)->Ok_0.0;
            &&& v.canonical()
            &&& v.spec_encode() is Ok
            &&& ConnectView::dec(v.spec_encode()->Ok_0, 0) == Ok::<(ConnectView, int), Error>(
                (v, v.spec_encode()->Ok_0.len() as int),
            )
        }),
{
    reveal(ConnectView::dec);
    let v = ConnectView::dec(b, 0)->Ok_0.0;
    let n0 = FixedHeader::dec(b, 0)->Ok_0.1;
    lemma_head_canonical(b, n0);
    let (h, n1) = ConnectHead::dec(b, n0)->Ok_0;
    lemma_payload_canonical(b, n1, h.flags);
    law_connect_decode_encode(v);
}

} // verus!
