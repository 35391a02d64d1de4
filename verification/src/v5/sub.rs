//! The SUBSCRIBE packet.

use vstd::prelude::*;
use vstd::utf8::*;
use vstd::slice::*;
use crate::error::{Error, malformed, protocol_error};
use crate::wire::{
    agrees_view, dec_string, dec_u16, dec_u8, decode_string, decode_u16, decode_u8, enc_bytes,
    enc_u16, enc_u8, has_at, lemma_append_assoc, lemma_dec_enc_bytes, lemma_dec_enc_string,
    lemma_dec_enc_u16, lemma_dec_enc_u8, lemma_has_at_split, lemma_has_at_start, put_raw,
    put_string, put_u16, put_u8, varu32_len, FIELD_MAX, VARU32_MAX,
};
use crate::v5::{
    lemma_dec_enc_fixed_header, lemma_first_byte, user_props_view, FixedHeader, PacketType, QoS,
    TopicFilter, UserProperty, VarU32,
};
use crate::v5::connect::lemma_users_nonempty;
use crate::v5::property::{
    dec_opt_section, dec_section, enc_opt, enc_section, enc_users, lemma_dec_props_users,
    lemma_dec_section_valid, section_size, lemma_section_frame, lemma_step_subscription_id,
    opt_fits, prop_varint, put_prop_varint, put_user_props, users_fit, users_wf, PropBag, PropCtx,
    PropertyType, PropsView,
};
use crate::v5::pubaclc::{spec_encode_section, wrap_section};

verus! {

/// When the broker sends retained messages to a new subscription.
#[derive(Debug, Clone, Copy, Eq, PartialEq, Structural)]
pub enum RetainForwardRule {
    OnEverySubscribe,
    OnNewSubscribe,
    Never,
}

impl RetainForwardRule {
    pub open spec fn spec_to_u8(self) -> u8 {
        match self {
            RetainForwardRule::OnEverySubscribe => 0,
            RetainForwardRule::OnNewSubscribe => 1,
            RetainForwardRule::Never => 2,
        }
    }

    pub open spec fn spec_from_u8(v: u8) -> Result<RetainForwardRule, Error> {
        if v == 0 {
            Ok(RetainForwardRule::OnEverySubscribe)
        } else if v == 1 {
            Ok(RetainForwardRule::OnNewSubscribe)
        } else if v == 2 {
            Ok(RetainForwardRule::Never)
        } else {
            Err(malformed())
        }
    }

    #[verifier::when_used_as_spec(spec_to_u8)]
    pub fn to_u8(self) -> (b: u8)
        ensures
            b == self.spec_to_u8(),
    {
        match self {
            RetainForwardRule::OnEverySubscribe => 0,
            RetainForwardRule::OnNewSubscribe => 1,
            RetainForwardRule::Never => 2,
        }
    }

    /// The rule that `v` stands for; 3 and above stand for none and are
    /// malformed.
    pub fn try_from_u8(v: u8) -> (res: Result<RetainForwardRule, Error>)
        ensures
            res == Self::spec_from_u8(v),
    {
        match v {
            0 => Ok(RetainForwardRule::OnEverySubscribe),
            1 => Ok(RetainForwardRule::OnNewSubscribe),
            2 => Ok(RetainForwardRule::Never),
            _ => Err(Error::malformed()),
        }
    }
}

/// Subscription options carried with each filter of a SUBSCRIBE: from the
/// lowest bit up, two bits of maximum quality of service, the "no local" flag,
/// the "retain as published" flag, two bits of retain handling, and two
/// reserved bits.
#[derive(Clone, Copy, Eq, PartialEq, Debug, Structural)]
pub struct SubscriptionOpt(pub u8);

impl SubscriptionOpt {
    /// The two bits of maximum quality of service.
    pub open spec fn qos_bits(self) -> u8 {
        self.0 % 4
    }

    pub open spec fn spec_no_local(self) -> bool {
        (self.0 / 4) % 2 == 1
    }

    pub open spec fn spec_retain_as_published(self) -> bool {
        (self.0 / 8) % 2 == 1
    }

    /// The two bits of retain handling.
    pub open spec fn retain_bits(self) -> u8 {
        (self.0 / 16) % 4
    }

    /// The two reserved bits.
    pub open spec fn reserved_bits(self) -> u8 {
        self.0 / 64
    }

    /// The options byte is one that a SUBSCRIBE may carry: the reserved bits
    /// are 0, and retain handling and quality of service are not 3.
    pub open spec fn valid(self) -> bool {
        self.reserved_bits() == 0 && self.retain_bits() != 3 && self.qos_bits() != 3
    }

    /// The options byte with the given parts.
    pub open spec fn spec_new(rfr: RetainForwardRule, rap: bool, nl: bool, qos: QoS) -> u8 {
        (rfr.spec_to_u8() * 16 + (if rap {
            8int
        } else {
            0int
        }) + (if nl {
            4int
        } else {
            0int
        }) + qos.spec_to_u8()) as u8
    }

    pub fn new(rfr: RetainForwardRule, rap: bool, nl: bool, qos: QoS) -> (res: SubscriptionOpt)
        ensures
            res.0 == Self::spec_new(rfr, rap, nl, qos),
            res.valid(),
    {
        let rfr: u8 = rfr.to_u8() * 16;
        let rap: u8 = if rap {
            8
        } else {
            0
        };
        let nl: u8 = if nl {
            4
        } else {
            0
        };
        let qos: u8 = qos.to_u8();
        SubscriptionOpt(rfr + rap + nl + qos)
    }

    /// Returns (retain_forward_rule, retain_as_published, no_local, qos).
    pub fn unwrap(&self) -> (res: (RetainForwardRule, bool, bool, QoS))
        requires
            self.retain_bits() != 3,
            self.qos_bits() != 3,
        ensures
            RetainForwardRule::spec_from_u8(self.retain_bits()) == Ok::<RetainForwardRule, Error>(
                res.0,
            ),
            res.1 == self.spec_retain_as_published(),
            res.2 == self.spec_no_local(),
            QoS::spec_from_u8(self.qos_bits()) == Ok::<QoS, Error>(res.3),
    {
        let q: u8 = self.0 % 4;
        let qos: QoS = if q == 0 {
            QoS::AtMostOnce
        } else if q == 1 {
            QoS::AtLeastOnce
        } else {
            QoS::ExactlyOnce
        };
        let nl: bool = (self.0 / 4) % 2 == 1;
        let rap: bool = (self.0 / 8) % 2 == 1;
        let r: u8 = (self.0 / 16) % 4;
        let rfr: RetainForwardRule = if r == 0 {
            RetainForwardRule::OnEverySubscribe
        } else if r == 1 {
            RetainForwardRule::OnNewSubscribe
        } else {
            RetainForwardRule::Never
        };
        (rfr, rap, nl, qos)
    }

    /// An options byte by itself keeps every rule; the rules on it are those of
    /// the SUBSCRIBE that carries it.
    pub fn validate(&self) -> (res: Result<(), Error>)
        ensures
            res is Ok,
    {
        Ok(())
    }

    /// Whether the byte is one that a SUBSCRIBE may carry.
    pub fn is_valid(&self) -> (b: bool)
        ensures
            b == self.valid(),
    {
        self.0 / 64 == 0 && (self.0 / 16) % 4 != 3 && self.0 % 4 != 3
    }
}

/// Taking an options byte apart gives the parts it was made of.
pub proof fn law_subscription_opt_parts(rfr: RetainForwardRule, rap: bool, nl: bool, qos: QoS)
    ensures
        ({
            let o = SubscriptionOpt(SubscriptionOpt::spec_new(rfr, rap, nl, qos));
            &&& o.retain_bits() == rfr.spec_to_u8()
            &&& o.spec_retain_as_published() == rap
            &&& o.spec_no_local() == nl
            &&& o.qos_bits() == qos.spec_to_u8()
            &&& o.valid()
        }),
{
}

/// One filter of a SUBSCRIBE with its options.
#[derive(Clone, Eq, PartialEq, Debug)]
pub struct SubscribeFilter {
    pub topic_filter: TopicFilter,
    pub opt: SubscriptionOpt,
}

/// One filter of a SUBSCRIBE, with text as its bytes.
pub ghost struct SubscribeFilterView {
    pub topic_filter: Seq<u8>,
    pub opt: SubscriptionOpt,
}

impl View for SubscribeFilter {
    type V = SubscribeFilterView;

    open spec fn view(&self) -> SubscribeFilterView {
        SubscribeFilterView { topic_filter: self.topic_filter@, opt: self.opt }
    }
}

impl SubscribeFilterView {
    /// A filter read at position `i`: the topic filter, then the options byte.
    pub open spec fn dec(s: Seq<u8>, i: int) -> Result<(SubscribeFilterView, int), Error> {
        match dec_string(s, i) {
            Err(e) => Err(e),
            Ok((tf, j)) => match dec_u8(s, j) {
                Err(e) => Err(e),
                Ok((o, n)) => Ok(
                    (SubscribeFilterView { topic_filter: tf, opt: SubscriptionOpt(o) }, n),
                ),
            },
        }
    }

    pub open spec fn enc(self) -> Seq<u8> {
        enc_bytes(self.topic_filter) + enc_u8(self.opt.0)
    }

    /// The topic filter is short enough to be written.
    pub open spec fn fits(self) -> bool {
        self.topic_filter.len() <= FIELD_MAX
    }

    /// The filter can be written and is UTF-8.
    pub open spec fn wf(self) -> bool {
        self.fits() && valid_utf8(self.topic_filter)
    }
}

impl SubscribeFilter {
    /// A filter by itself keeps every rule.
    pub fn validate(&self) -> (res: Result<(), Error>)
        ensures
            res is Ok,
    {
        Ok(())
    }

    /// Reads a filter at `off`.
    pub fn decode(stream: &[u8], off: usize) -> (res: Result<(SubscribeFilter, usize), Error>)
        ensures
            agrees_view(res, SubscribeFilterView::dec(stream@, off as int)),
            res matches Ok((f, n)) ==> off < n <= stream@.len(),
    {
        match decode_string(stream, off) {
            Err(e) => Err(e),
            Ok((tf, j)) => match decode_u8(stream, j) {
                Err(e) => Err(e),
                Ok((o, n)) => Ok(
                    (SubscribeFilter { topic_filter: TopicFilter(tf), opt: SubscriptionOpt(o) }, n),
                ),
            },
        }
    }

    /// Appends the filter; a topic filter that is too long is refused.
    pub fn encode_into(&self, data: &mut Vec<u8>) -> (res: Result<(), Error>)
        ensures
            self@.fits() ==> res is Ok && final(data)@ == old(data)@ + self@.enc(),
            !self@.fits() ==> res == Err::<(), Error>(malformed()),
    {
        match put_string(data, self.topic_filter.0.as_str()) {
            Err(e) => {
                return Err(e);
            },
            Ok(()) => {},
        }
        put_u8(data, self.opt.0);
        assert(data@ =~= old(data)@ + self@.enc());
        Ok(())
    }
}

/// The views of filters, in order.
pub open spec fn filters_view(fs: Seq<SubscribeFilter>) -> Seq<SubscribeFilterView> {
    Seq::new(fs.len(), |k: int| fs[k]@)
}

/// The filters one behind the other.
pub open spec fn enc_filters(fs: Seq<SubscribeFilterView>) -> Seq<u8>
    decreases fs.len(),
{
    if fs.len() == 0 {
        Seq::empty()
    } else {
        enc_filters(fs.drop_last()) + fs.last().enc()
    }
}

/// The filters from position `i` to the end of `s`, read one after the other
/// and put behind `acc`.
pub open spec fn dec_filters_from(s: Seq<u8>, i: int, acc: Seq<SubscribeFilterView>) -> Result<
    Seq<SubscribeFilterView>,
    Error,
>
    decreases s.len() - i,
{
    if i >= s.len() {
        Ok(acc)
    } else {
        match SubscribeFilterView::dec(s, i) {
            Err(e) => Err(e),
            Ok((f, j)) => if i < j <= s.len() {
                dec_filters_from(s, j, acc.push(f))
            } else {
                Err(malformed())
            },
        }
    }
}

/// Every filter can be written.
pub open spec fn filters_fit(fs: Seq<SubscribeFilterView>) -> bool {
    forall|k: int| 0 <= k < fs.len() ==> (#[trigger] fs[k]).fits()
}

/// Every filter can be written and is UTF-8.
pub open spec fn filters_wf(fs: Seq<SubscribeFilterView>) -> bool {
    forall|k: int| 0 <= k < fs.len() ==> (#[trigger] fs[k]).wf()
}

/// Every filter carries options that a SUBSCRIBE may carry.
pub open spec fn filters_valid(fs: Seq<SubscribeFilterView>) -> bool {
    forall|k: int| 0 <= k < fs.len() ==> (#[trigger] fs[k]).opt.valid()
}

/// Collection of MQTT properties allowed in a SUBSCRIBE packet.
#[derive(Debug, Clone, Eq, PartialEq)]
pub struct SubscribeProperties {
    pub subscription_id: Option<VarU32>,
    pub user_properties: Vec<UserProperty>,
}

/// The properties of a SUBSCRIBE, with text as its bytes.
pub ghost struct SubscribePropertiesView {
    pub subscription_id: Option<u32>,
    pub user_properties: Seq<(Seq<u8>, Seq<u8>)>,
}

/// The number in a variable-byte integer that may be absent.
pub open spec fn opt_varu32_view(v: Option<VarU32>) -> Option<u32> {
    match v {
        Some(v) => Some(v.0),
        None => None,
    }
}

impl View for SubscribeProperties {
    type V = SubscribePropertiesView;

    open spec fn view(&self) -> SubscribePropertiesView {
        SubscribePropertiesView {
            subscription_id: opt_varu32_view(self.subscription_id),
            user_properties: user_props_view(self.user_properties@),
        }
    }
}

impl SubscribePropertiesView {
    pub open spec fn from_bag(bag: PropsView) -> SubscribePropertiesView {
        SubscribePropertiesView {
            subscription_id: bag.subscription_id,
            user_properties: bag.user_properties,
        }
    }

    pub open spec fn to_bag(self) -> PropsView {
        PropsView {
            subscription_id: self.subscription_id,
            user_properties: self.user_properties,
            ..PropsView::empty()
        }
    }

    pub open spec fn is_empty(self) -> bool {
        self.subscription_id is None && self.user_properties.len() == 0
    }

    /// Every value is short enough to be written.
    pub open spec fn fits(self) -> bool {
        &&& opt_fits(prop_varint(PropertyType::SubscriptionIdentifier, self.subscription_id))
        &&& users_fit(self.user_properties)
    }

    /// A subscription identifier, where given, is not 0.
    pub open spec fn spec_validate(self) -> Result<(), Error> {
        if self.subscription_id == Some(0u32) {
            Err(protocol_error())
        } else {
            Ok(())
        }
    }

    /// Every value keeps the rules, can be written, and is UTF-8 where it is
    /// text.
    pub open spec fn wf(self) -> bool {
        &&& self.spec_validate() is Ok
        &&& self.fits()
        &&& users_wf(self.user_properties)
    }

    /// The properties one behind the other: the subscription identifier, then
    /// the user properties.
    pub open spec fn enc_body(self) -> Seq<u8> {
        enc_opt(prop_varint(PropertyType::SubscriptionIdentifier, self.subscription_id))
            + enc_users(self.user_properties)
    }

    /// The properties section read at position `i`.
    pub open spec fn dec(s: Seq<u8>, i: int) -> Result<(SubscribePropertiesView, int), Error> {
        match dec_section(PropCtx::Subscribe, s, i) {
            Err(e) => Err(e),
            Ok((bag, n)) => Ok((SubscribePropertiesView::from_bag(bag), n)),
        }
    }
}

impl Default for SubscribeProperties {
    fn default() -> (p: SubscribeProperties)
        ensures
            p@.is_empty(),
    {
        SubscribeProperties { subscription_id: None, user_properties: Vec::new() }
    }
}

impl SubscribeProperties {
    fn from_bag(bag: PropBag) -> (p: SubscribeProperties)
        ensures
            p@ == SubscribePropertiesView::from_bag(bag@),
    {
        SubscribeProperties {
            subscription_id: match bag.subscription_id {
                Some(v) => Some(VarU32(v)),
                None => None,
            },
            user_properties: bag.user_properties,
        }
    }

    /// Whether no property is set.
    pub fn is_empty(&self) -> (b: bool)
        ensures
            b == self@.is_empty(),
    {
        self.subscription_id.is_none() && self.user_properties.len() == 0
    }

    /// Refuses a subscription identifier of 0.
    pub fn validate(&self) -> (res: Result<(), Error>)
        ensures
            res == self@.spec_validate(),
    {
        match self.subscription_id {
            Some(v) => if v.0 == 0 {
                Err(Error::protocol_error())
            } else {
                Ok(())
            },
            None => Ok(()),
        }
    }

    /// Reads the properties section that starts at `off`. A property that a
    /// SUBSCRIBE does not allow, a subscription identifier that comes twice and
    /// one that is 0 are protocol errors.
    pub fn decode(stream: &[u8], off: usize) -> (res: Result<(SubscribeProperties, usize), Error>)
        ensures
            agrees_view(res, SubscribePropertiesView::dec(stream@, off as int)),
    {
        match PropBag::decode(PropCtx::Subscribe, stream, off) {
            Err(e) => Err(e),
            Ok((bag, n)) => Ok((SubscribeProperties::from_bag(bag), n)),
        }
    }

    /// Appends the properties, without the length of the section.
    pub fn encode_body(&self, data: &mut Vec<u8>) -> (res: Result<(), Error>)
        ensures
            self@.fits() ==> res is Ok && final(data)@ == old(data)@ + self@.enc_body(),
            !self@.fits() ==> res == Err::<(), Error>(malformed()),
    {
        let id: Option<u32> = match self.subscription_id {
            Some(v) => Some(v.0),
            None => None,
        };
        match put_prop_varint(data, PropertyType::SubscriptionIdentifier, id) {
            Err(e) => {
                return Err(e);
            },
            Ok(()) => {},
        }
        match put_user_props(data, &self.user_properties) {
            Err(e) => {
                return Err(e);
            },
            Ok(()) => {},
        }
        assert(data@ =~= old(data)@ + self@.enc_body());
        Ok(())
    }

    /// The properties section: its length, then the properties.
    pub fn encode(&self) -> (res: Result<Vec<u8>, Error>)
        ensures
            match res {
                Ok(v) => spec_encode_section(self@.fits(), self@.enc_body()) == Ok::<
                    Seq<u8>,
                    Error,
                >(v@),
                Err(e) => spec_encode_section(self@.fits(), self@.enc_body()) == Err::<
                    Seq<u8>,
                    Error,
                >(e),
            },
    {
        let mut body: Vec<u8> = Vec::new();
        match self.encode_body(&mut body) {
            Err(e) => {
                return Err(e);
            },
            Ok(()) => {},
        }
        assert(body@ =~= self@.enc_body());
        wrap_section(body)
    }
}

/// SUBSCRIBE packet.
#[derive(Clone, Eq, PartialEq, Debug)]
pub struct Subscribe {
    pub packet_id: u16,
    pub properties: Option<SubscribeProperties>,
    pub filters: Vec<SubscribeFilter>,
}

/// A SUBSCRIBE, with text as its bytes.
pub ghost struct SubscribeView {
    pub packet_id: u16,
    pub properties: Option<SubscribePropertiesView>,
    pub filters: Seq<SubscribeFilterView>,
}

/// The view of SUBSCRIBE properties that may be absent.
pub open spec fn opt_sub_props_view(p: Option<SubscribeProperties>) -> Option<
    SubscribePropertiesView,
> {
    match p {
        Some(p) => Some(p@),
        None => None,
    }
}

/// The SUBSCRIBE properties that a bag holds, if there is a bag.
pub open spec fn opt_sub_from_bag(b: Option<PropsView>) -> Option<SubscribePropertiesView> {
    match b {
        Some(b) => Some(SubscribePropertiesView::from_bag(b)),
        None => None,
    }
}

impl View for Subscribe {
    type V = SubscribeView;

    open spec fn view(&self) -> SubscribeView {
        SubscribeView {
            packet_id: self.packet_id,
            properties: opt_sub_props_view(self.properties),
            filters: filters_view(self.filters@),
        }
    }
}

impl SubscribeView {
    /// The bytes of the properties, without the length of their section.
    pub open spec fn props_body(self) -> Seq<u8> {
        match self.properties {
            Some(p) => p.enc_body(),
            None => Seq::empty(),
        }
    }

    /// The packet identifier and the properties section.
    pub open spec fn head(self) -> Seq<u8> {
        enc_u16(self.packet_id) + enc_section(self.props_body())
    }

    /// Everything behind the fixed header.
    pub open spec fn body(self) -> Seq<u8> {
        self.head() + enc_filters(self.filters)
    }

    pub open spec fn header(self) -> FixedHeader {
        FixedHeader { byte1: 0x82, remaining_len: VarU32(self.body().len() as u32) }
    }

    /// The rules that a SUBSCRIBE keeps before it is written and after it was
    /// read: it has at least one filter, else it is a protocol error; the
    /// options of every filter have their reserved bits 0 and neither retain
    /// handling nor quality of service 3, else it is malformed; a subscription
    /// identifier is not 0, else it is a protocol error.
    pub open spec fn spec_validate(self) -> Result<(), Error> {
        if self.filters.len() == 0 {
            Err(protocol_error())
        } else if !filters_valid(self.filters) {
            Err(malformed())
        } else if self.properties matches Some(p) && p.spec_validate() is Err {
            Err(protocol_error())
        } else {
            Ok(())
        }
    }

    /// Every field is short enough to be written.
    pub open spec fn fits(self) -> bool {
        &&& (self.properties matches Some(p) ==> p.fits() && p.enc_body().len() <= VARU32_MAX)
        &&& filters_fit(self.filters)
    }

    /// The bytes of the packet, or why it cannot be written.
    pub open spec fn spec_encode(self) -> Result<Seq<u8>, Error> {
        match self.spec_validate() {
            Err(e) => Err(e),
            Ok(()) => if !self.fits() || self.body().len() > VARU32_MAX {
                Err(malformed())
            } else {
                Ok(self.header().enc() + self.body())
            },
        }
    }

    /// The SUBSCRIBE that stands at position `i`, and the position behind it.
    ///
    /// A valid fixed header, the packet identifier and the properties section
    /// (absent if its length is 0) are followed by the filters, which fill the
    /// packet to the end that the remaining length sets. That end lies behind
    /// the properties and within `s`, else the packet is malformed. The whole
    /// is then held to the rules of `spec_validate`.
    #[verifier::opaque]
    pub open spec fn dec(s: Seq<u8>, i: int) -> Result<(SubscribeView, int), Error> {
        match FixedHeader::dec(s, i) {
            Err(e) => Err(e),
            Ok((fh, n0)) => match fh.spec_validate() {
                Err(e) => Err(e),
                Ok(()) => match dec_u16(s, n0) {
                    Err(e) => Err(e),
                    Ok((packet_id, n1)) => match dec_opt_section(PropCtx::Subscribe, s, n1) {
                        Err(e) => Err(e),
                        Ok((bag, n2)) => {
                            let m = n0 + fh.remaining_len.0;
                            if m <= n2 || m > s.len() {
                                Err(malformed())
                            } else {
                                match dec_filters_from(s.subrange(0, m), n2, Seq::empty()) {
                                    Err(e) => Err(e),
                                    Ok(filters) => {
                                        let v = SubscribeView {
                                            packet_id,
                                            properties: opt_sub_from_bag(bag),
                                            filters,
                                        };
                                        match v.spec_validate() {
                                            Err(e) => Err(e),
                                            Ok(()) => Ok((v, m)),
                                        }
                                    },
                                }
                            }
                        },
                    },
                },
            },
        }
    }

    /// The SUBSCRIBE reads back as itself: its filters are UTF-8, and
    /// properties, where there are any, are well-formed and not empty.
    pub open spec fn canonical(self) -> bool {
        &&& (self.properties matches Some(p) ==> p.wf() && !p.is_empty())
        &&& filters_wf(self.filters)
    }

    /// The SUBSCRIBE without properties that hold nothing.
    pub open spec fn normalized(self) -> SubscribeView {
        SubscribeView {
            properties: match self.properties {
                Some(p) => if p.is_empty() {
                    None
                } else {
                    Some(p)
                },
                None => None,
            },
            ..self
        }
    }
}

impl Subscribe {
    /// Drops properties that hold nothing.
    pub fn normalize(&mut self)
        ensures
            final(self)@ == old(self)@.normalized(),
    {
        let drop_props = match &self.properties {
            Some(p) => p.is_empty(),
            None => false,
        };
        if drop_props {
            self.properties = None;
        }
    }

    /// Whether the options of every filter are ones that a SUBSCRIBE may carry.
    fn check_filters_valid(&self) -> (b: bool)
        ensures
            b == filters_valid(self@.filters),
    {
        let ghost view = self@.filters;
        let mut k: usize = 0;
        while k < self.filters.len()
            invariant
                k <= self.filters@.len(),
                view == filters_view(self.filters@),
                forall|j: int| 0 <= j < k ==> (#[trigger] view[j]).opt.valid(),
            decreases self.filters@.len() - k,
        {
            if !self.filters[k].opt.is_valid() {
                assert(!view[k as int].opt.valid());
                return false;
            }
            k += 1;
        }
        true
    }

    /// Holds the packet to the rules of a SUBSCRIBE.
    pub fn validate(&self) -> (res: Result<(), Error>)
        ensures
            res == self@.spec_validate(),
    {
        if self.filters.len() == 0 {
            return Err(Error::protocol_error());
        }
        if !self.check_filters_valid() {
            return Err(Error::malformed());
        }
        match &self.properties {
            Some(p) => match p.validate() {
                Err(_) => Err(Error::protocol_error()),
                Ok(()) => Ok(()),
            },
            None => Ok(()),
        }
    }

    /// Reads a SUBSCRIBE from the start of `stream`; returns it with the number
    /// of bytes read, which is the whole packet as its fixed header measures
    /// it.
    pub fn decode(stream: &[u8]) -> (res: Result<(Subscribe, usize), Error>)
        ensures
            agrees_view(res, SubscribeView::dec(stream@, 0)),
    {
        reveal(SubscribeView::dec);
        let (fh, n0) = match FixedHeader::decode(stream, 0) {
            Err(e) => {
                return Err(e);
            },
            Ok(x) => x,
        };
        match fh.validate() {
            Err(e) => {
                return Err(e);
            },
            Ok(()) => {},
        }
        let (packet_id, n1) = match decode_u16(stream, n0) {
            Err(e) => {
                return Err(e);
            },
            Ok(x) => x,
        };
        let (bag, n2) = match PropBag::decode_opt(PropCtx::Subscribe, stream, n1) {
            Err(e) => {
                return Err(e);
            },
            Ok(x) => x,
        };
        let properties = match bag {
            Some(b) => Some(SubscribeProperties::from_bag(b)),
            None => None,
        };
        let remaining: usize = fh.remaining_len.0 as usize;
        if remaining > stream.len() - n0 || n0 + remaining <= n2 {
            return Err(Error::malformed());
        }
        let m: usize = n0 + remaining;
        let payload = slice_subrange(stream, 0, m);
        let mut filters: Vec<SubscribeFilter> = Vec::new();
        let mut t: usize = n2;
        assert(filters_view(filters@) =~= Seq::empty());
        while t < m
            invariant
                n2 <= t <= m,
                m <= stream@.len(),
                m == payload@.len(),
                payload@ == stream@.subrange(0, m as int),
                dec_filters_from(payload@, n2 as int, Seq::empty()) == dec_filters_from(
                    payload@,
                    t as int,
                    filters_view(filters@),
                ),
                SubscribeView::dec(stream@, 0) == match dec_filters_from(
                    payload@,
                    n2 as int,
                    Seq::empty(),
                ) {
                    Err(e) => Err::<(SubscribeView, int), Error>(e),
                    Ok(fs) => {
                        let v = SubscribeView {
                            packet_id,
                            properties: opt_sub_props_view(properties),
                            filters: fs,
                        };
                        match v.spec_validate() {
                            Err(e) => Err::<(SubscribeView, int), Error>(e),
                            Ok(()) => Ok::<(SubscribeView, int), Error>((v, m as int)),
                        }
                    },
                },
            decreases m - t,
        {
            let (filter, j) = match SubscribeFilter::decode(payload, t) {
                Err(e) => {
                    return Err(e);
                },
                Ok(x) => x,
            };
            let ghost prev = filters_view(filters@);
            let ghost fv = filter@;
            filters.push(filter);
            assert(filters_view(filters@) =~= prev.push(fv));
            t = j;
        }
        let val = Subscribe { packet_id, properties, filters };
        match val.validate() {
            Err(e) => Err(e),
            Ok(()) => Ok((val, m)),
        }
    }

    /// The bytes of the packet: fixed header, packet identifier, properties
    /// section and filters. The packet is first held to the rules of
    /// `validate`; a field that is too long to be written and a packet longer
    /// than a variable-byte integer can say are malformed.
    pub fn encode(&self) -> (res: Result<Vec<u8>, Error>)
        ensures
            match res {
                Ok(v) => self@.spec_encode() == Ok::<Seq<u8>, Error>(v@),
                Err(e) => self@.spec_encode() == Err::<Seq<u8>, Error>(e),
            },
    {
        match self.validate() {
            Err(e) => {
                return Err(e);
            },
            Ok(()) => {},
        }
        let mut props: Vec<u8> = Vec::new();
        match &self.properties {
            Some(p) => match p.encode_body(&mut props) {
                Err(e) => {
                    return Err(e);
                },
                Ok(()) => {},
            },
            None => {},
        }
        assert(props@ =~= self@.props_body());
        let section = match wrap_section(props) {
            Err(e) => {
                return Err(e);
            },
            Ok(s) => s,
        };
        let mut data: Vec<u8> = Vec::new();
        put_u16(&mut data, self.packet_id);
        put_raw(&mut data, section.as_slice());
        assert(data@ =~= self@.head());
        let ghost view = self@.filters;
        let mut k: usize = 0;
        while k < self.filters.len()
            invariant
                k <= self.filters@.len(),
                view == filters_view(self.filters@),
                view == self@.filters,
                self@.spec_validate() is Ok,
                data@ == self@.head() + enc_filters(view.take(k as int)),
                filters_fit(view.take(k as int)),
            decreases self.filters@.len() - k,
        {
            match self.filters[k].encode_into(&mut data) {
                Err(e) => {
                    assert(!view[k as int].fits());
                    return Err(e);
                },
                Ok(()) => {},
            }
            proof {
                let next = view.take(k + 1);
                assert(next.drop_last() =~= view.take(k as int));
                assert(next.last() == view[k as int]);
                lemma_append_assoc(
                    self@.head(),
                    enc_filters(view.take(k as int)),
                    view[k as int].enc(),
                );
                assert forall|j: int| 0 <= j < next.len() implies (#[trigger] next[j]).fits() by {
                    if j < k {
                        assert(view.take(k as int)[j] == next[j]);
                    }
                }
            }
            k += 1;
        }
        assert(view.take(self.filters@.len() as int) =~= view);
        if data.len() > VARU32_MAX as usize {
            return Err(Error::malformed());
        }
        let fh = match FixedHeader::new_subscribe(VarU32(data.len() as u32)) {
            Err(e) => {
                return Err(e);
            },
            Ok(fh) => fh,
        };
        let mut out: Vec<u8> = Vec::new();
        let _ = fh.encode_into(&mut out);
        put_raw(&mut out, data.as_slice());
        assert(out@ =~= self@.header().enc() + self@.body());
        Ok(out)
    }
}

/// A filter, read back where it was written, is the filter written.
pub proof fn lemma_dec_enc_filter(s: Seq<u8>, i: int, f: SubscribeFilterView)
    requires
        f.wf(),
        has_at(s, i, f.enc()),
    ensures
        SubscribeFilterView::dec(s, i) == Ok::<(SubscribeFilterView, int), Error>(
            (f, i + f.enc().len()),
        ),
        f.enc().len() >= 3,
{
    lemma_has_at_split(s, i, enc_bytes(f.topic_filter), enc_u8(f.opt.0));
    lemma_dec_enc_string(s, i, f.topic_filter);
    lemma_dec_enc_bytes(s, i, f.topic_filter);
    lemma_dec_enc_u8(s, i + 2 + f.topic_filter.len(), f.opt.0);
}

/// Reading filters passes over filters that stand at `i`, and keeps them in
/// their order.
pub proof fn lemma_dec_filters(
    s: Seq<u8>,
    i: int,
    acc: Seq<SubscribeFilterView>,
    fs: Seq<SubscribeFilterView>,
)
    requires
        filters_wf(fs),
        has_at(s, i, enc_filters(fs)),
    ensures
        dec_filters_from(s, i, acc) == dec_filters_from(s, i + enc_filters(fs).len(), acc + fs),
        fs.len() > 0 ==> enc_filters(fs).len() >= 3,
    decreases fs.len(),
{
    if fs.len() == 0 {
        assert(acc + fs =~= acc);
    } else {
        let front = fs.drop_last();
        let f = fs.last();
        lemma_has_at_split(s, i, enc_filters(front), f.enc());
        assert forall|k: int| 0 <= k < front.len() implies (#[trigger] front[k]).wf() by {
            assert(front[k] == fs[k]);
        }
        lemma_dec_filters(s, i, acc, front);
        assert(f == fs[fs.len() - 1]);
        lemma_dec_enc_filter(s, i + enc_filters(front).len(), f);
        assert(acc + fs =~= (acc + front).push(f));
    }
}

/// The properties of a SUBSCRIBE, read back where they were written, are the
/// properties written.
#[verifier::rlimit(40)]
pub proof fn lemma_dec_enc_sub_properties(s: Seq<u8>, i: int, p: SubscribePropertiesView)
    requires
        p.wf(),
        p.enc_body().len() <= VARU32_MAX,
        has_at(s, i, enc_section(p.enc_body())),
    ensures
        dec_section(PropCtx::Subscribe, s, i) == Ok::<(PropsView, int), Error>(
            (p.to_bag(), i + enc_section(p.enc_body()).len()),
        ),
        SubscribePropertiesView::dec(s, i) == Ok::<(SubscribePropertiesView, int), Error>(
            (p, i + enc_section(p.enc_body()).len()),
        ),
{
    let ctx = PropCtx::Subscribe;
    let body = p.enc_body();
    lemma_section_frame(s, i, body);
    let j = i + varu32_len(body.len() as u32);
    let t = s.subrange(0, j + body.len());
    let e1 = enc_opt(prop_varint(PropertyType::SubscriptionIdentifier, p.subscription_id));
    lemma_has_at_split(t, j, e1, enc_users(p.user_properties));
    let b0 = PropsView::empty();
    let bag = p.to_bag();
    lemma_step_subscription_id(ctx, t, j, b0, p.subscription_id);
    let b1 = PropsView { subscription_id: p.subscription_id, ..b0 };
    lemma_dec_props_users(ctx, t, j + e1.len(), b1, p.user_properties);
    assert(b1.user_properties + p.user_properties =~= p.user_properties);
    assert(SubscribePropertiesView::from_bag(bag) == p);
}

/// SUBSCRIBE properties of which there is at least one take at least one
/// byte.
pub proof fn lemma_sub_props_nonempty(p: SubscribePropertiesView)
    requires
        !p.is_empty(),
    ensures
        p.enc_body().len() >= 1,
{
    if p.user_properties.len() > 0 {
        lemma_users_nonempty(p.user_properties);
    }
}

/// The packet identifier and the properties of a canonical SUBSCRIBE, read
/// back where they were written, are the ones written.
#[verifier::rlimit(40)]
pub proof fn lemma_dec_enc_sub_head(s: Seq<u8>, i: int, v: SubscribeView)
    requires
        v.spec_validate() is Ok,
        v.fits(),
        v.properties matches Some(p) ==> p.wf() && !p.is_empty(),
        has_at(s, i, v.head()),
    ensures
        dec_u16(s, i) == Ok::<(u16, int), Error>((v.packet_id, i + 2)),
        dec_opt_section(PropCtx::Subscribe, s, i + 2) matches Ok((bag, n)) && opt_sub_from_bag(bag)
            == v.properties && n == i + v.head().len(),
{
    lemma_has_at_split(s, i, enc_u16(v.packet_id), enc_section(v.props_body()));
    lemma_dec_enc_u16(s, i, v.packet_id);
    match v.properties {
        Some(p) => {
            lemma_dec_enc_sub_properties(s, i + 2, p);
            lemma_section_frame(s, i + 2, p.enc_body());
            lemma_sub_props_nonempty(p);
        },
        None => {
            lemma_section_frame(s, i + 2, Seq::<u8>::empty());
        },
    }
}

/// Reading is the inverse of writing: a SUBSCRIBE that `encode` accepts and
/// that is canonical is what `decode` reads from the bytes that `encode` gave,
/// and all of those bytes are read.
#[verifier::rlimit(40)]
pub proof fn law_subscribe_decode_encode(v: SubscribeView)
    requires
        v.spec_encode() is Ok,
        v.canonical(),
    ensures
        SubscribeView::dec(v.spec_encode()->Ok_0, 0) == Ok::<(SubscribeView, int), Error>(
            (v, v.spec_encode()->Ok_0.len() as int),
        ),
{
    reveal(SubscribeView::dec);
    let s = v.spec_encode()->Ok_0;
    let fh = v.header();
    lemma_has_at_start(fh.enc(), v.body());
    lemma_dec_enc_fixed_header(s, 0, fh);
    lemma_first_byte(PacketType::Subscribe);
    let n0 = fh.enc().len() as int;
    lemma_has_at_split(s, n0, v.head(), enc_filters(v.filters));
    lemma_dec_enc_sub_head(s, n0, v);
    let n2 = n0 + v.head().len();
    let m = n0 + fh.remaining_len.0;
    assert(m == s.len());
    assert(s.subrange(0, m) =~= s);
    lemma_dec_filters(s, n2, Seq::empty(), v.filters);
    assert(Seq::<SubscribeFilterView>::empty() + v.filters =~= v.filters);
}

/// The properties that a valid section of a SUBSCRIBE holds are well-formed,
/// take the bytes of the section's properties, and are none exactly when the
/// section holds none.
pub proof fn lemma_sub_from_bag(bag: PropsView)
    requires
        bag.valid_for(PropCtx::Subscribe),
    ensures
        SubscribePropertiesView::from_bag(bag).wf(),
        SubscribePropertiesView::from_bag(bag).enc_body().len() == bag.size(),
        SubscribePropertiesView::from_bag(bag).is_empty() == bag.is_empty(),
{
}

/// The filters with one more take the bytes of that one more.
pub proof fn lemma_enc_filters_push(fs: Seq<SubscribeFilterView>, f: SubscribeFilterView)
    ensures
        enc_filters(fs.push(f)) == enc_filters(fs) + f.enc(),
{
    assert(fs.push(f).drop_last() =~= fs);
}

/// Filters that were read are well-formed, and written again they take
/// exactly the bytes that were read.
pub proof fn lemma_dec_filters_wf(s: Seq<u8>, i: int, acc: Seq<SubscribeFilterView>)
    requires
        0 <= i,
        filters_wf(acc),
        dec_filters_from(s, i, acc) is Ok,
    ensures
        filters_wf(dec_filters_from(s, i, acc)->Ok_0),
        enc_filters(dec_filters_from(s, i, acc)->Ok_0).len() == enc_filters(acc).len() + if i
            < s.len() {
            s.len() - i
        } else {
            0
        },
    decreases s.len() - i,
{
    if i < s.len() {
        crate::wire::lemma_enc_dec_bytes(s, i);
        let (f, j) = SubscribeFilterView::dec(s, i)->Ok_0;
        let next = acc.push(f);
        lemma_enc_filters_push(acc, f);
        assert forall|k: int| 0 <= k < next.len() implies (#[trigger] next[k]).wf() by {
            if k < acc.len() {
                assert(next[k] == acc[k]);
            }
        }
        lemma_dec_filters_wf(s, j, next);
    }
}

/// Writing is the inverse of reading, up to the form of what was read: a
/// SUBSCRIBE that `decode` read from any bytes, in whatever form and order its
/// properties stood there, is canonical, is accepted by `encode`, and is read
/// back from what `encode` gives.
#[verifier::rlimit(40)]
pub proof fn law_subscribe_encode_decode(b: Seq<u8>)
    requires
        SubscribeView::dec(b, 0) is Ok,
    ensures
        ({
            let v = SubscribeView::dec(b, 0)->Ok_0.0;
            &&& v.canonical()
            &&& v.spec_encode() is Ok
            &&& SubscribeView::dec(v.spec_encode()->Ok_0, 0) == Ok::<(SubscribeView, int), Error>(
                (v, v.spec_encode()->Ok_0.len() as int),
            )
        }),
{
    reveal(SubscribeView::dec);
    let v = SubscribeView::dec(b, 0)->Ok_0.0;
    let (fh, n0) = FixedHeader::dec(b, 0)->Ok_0;
    let n1 = n0 + 2;
    lemma_dec_section_valid(PropCtx::Subscribe, b, n1);
    let (ob, n2) = dec_opt_section(PropCtx::Subscribe, b, n1)->Ok_0;
    match ob {
        Some(bag) => {
            lemma_sub_from_bag(bag);
            assert(section_size(bag.size()) <= n2 - n1);
        },
        None => {
            assert(enc_section(Seq::<u8>::empty()).len() == 1);
        },
    }
    let m = n0 + fh.remaining_len.0;
    let t = b.subrange(0, m);
    assert(enc_filters(Seq::<SubscribeFilterView>::empty()).len() == 0);
    lemma_dec_filters_wf(t, n2, Seq::empty());
    assert(v.head().len() <= n2 - n0) by {
        crate::wire::lemma_dec_varu32_bounds(b, n1);
    }
    assert(v.body().len() <= fh.remaining_len.0);
    crate::wire::lemma_dec_varu32_bounds(b, 1);
    law_subscribe_decode_encode(v);
}

} // verus!
