//! PUBACK, PUBREC, PUBREL and PUBCOMP: the four acknowledgements of a
//! PUBLISH, which share one layout.

use vstd::prelude::*;
use vstd::utf8::*;
use crate::error::{Error, invalid_input, malformed, protocol_error};
use crate::wire::{
    agrees_view, dec_u16, dec_u8, decode_u16, decode_u8, enc_u16, enc_u8, has_at, lemma_dec_enc_u16,
    lemma_dec_enc_u8, lemma_has_at_split, lemma_has_at_start, put_raw, put_u16, put_u8, put_varu32,
    varu32_len, VARU32_MAX,
};
use crate::v5::{
    first_byte, lemma_dec_enc_fixed_header, lemma_first_byte, opt_str_view, user_props_view,
    FixedHeader, PacketType, UserProperty, VarU32,
};
use crate::v5::property::{
    dec_opt_section, dec_section, enc_opt, enc_section, enc_users, lemma_dec_section_valid,
    lemma_step_reason_string, lemma_dec_props_users, lemma_section_frame, opt_fits, opt_str,
    prop_text, put_prop_text, put_user_props, users_fit, users_wf, PropBag, PropCtx, PropertyType,
    PropsView,
};

verus! {

/// The reason codes that an acknowledgement of a PUBLISH can carry.
#[derive(Debug, Clone, Copy, PartialEq, Eq, Structural)]
pub enum ReasCode {
    Success,
    NoMatchingSubscribers,
    UnspecifiedError,
    ImplementationSpecificError,
    NotAuthorized,
    TopicNameInvalid,
    PacketIdentifierInUse,
    PacketIdNotFound,
    QuotaExceeded,
    PayloadFormatInvalid,
}

impl ReasCode {
    /// The byte that stands for the reason code on the wire.
    pub open spec fn spec_to_u8(self) -> u8 {
        match self {
            ReasCode::Success => 0x00,
            ReasCode::NoMatchingSubscribers => 0x10,
            ReasCode::UnspecifiedError => 0x80,
            ReasCode::ImplementationSpecificError => 0x83,
            ReasCode::NotAuthorized => 0x87,
            ReasCode::TopicNameInvalid => 0x90,
            ReasCode::PacketIdentifierInUse => 0x91,
            ReasCode::PacketIdNotFound => 0x92,
            ReasCode::QuotaExceeded => 0x97,
            ReasCode::PayloadFormatInvalid => 0x99,
        }
    }

    /// The reason code that the byte `v` stands for; a byte that stands for
    /// none is malformed.
    pub open spec fn spec_from_u8(v: u8) -> Result<ReasCode, Error> {
        if v == 0x00 {
            Ok(ReasCode::Success)
        } else if v == 0x10 {
            Ok(ReasCode::NoMatchingSubscribers)
        } else if v == 0x80 {
            Ok(ReasCode::UnspecifiedError)
        } else if v == 0x83 {
            Ok(ReasCode::ImplementationSpecificError)
        } else if v == 0x87 {
            Ok(ReasCode::NotAuthorized)
        } else if v == 0x90 {
            Ok(ReasCode::TopicNameInvalid)
        } else if v == 0x91 {
            Ok(ReasCode::PacketIdentifierInUse)
        } else if v == 0x92 {
            Ok(ReasCode::PacketIdNotFound)
        } else if v == 0x97 {
            Ok(ReasCode::QuotaExceeded)
        } else if v == 0x99 {
            Ok(ReasCode::PayloadFormatInvalid)
        } else {
            Err(malformed())
        }
    }

    #[verifier::when_used_as_spec(spec_to_u8)]
    pub fn to_u8(self) -> (b: u8)
        ensures
            b == self.spec_to_u8(),
            Self::spec_from_u8(b) == Ok::<ReasCode, Error>(self),
    {
        match self {
            ReasCode::Success => 0x00,
            ReasCode::NoMatchingSubscribers => 0x10,
            ReasCode::UnspecifiedError => 0x80,
            ReasCode::ImplementationSpecificError => 0x83,
            ReasCode::NotAuthorized => 0x87,
            ReasCode::TopicNameInvalid => 0x90,
            ReasCode::PacketIdentifierInUse => 0x91,
            ReasCode::PacketIdNotFound => 0x92,
            ReasCode::QuotaExceeded => 0x97,
            ReasCode::PayloadFormatInvalid => 0x99,
        }
    }

    pub fn try_from_u8(v: u8) -> (res: Result<ReasCode, Error>)
        ensures
            res == Self::spec_from_u8(v),
    {
        match v {
            0x00 => Ok(ReasCode::Success),
            0x10 => Ok(ReasCode::NoMatchingSubscribers),
            0x80 => Ok(ReasCode::UnspecifiedError),
            0x83 => Ok(ReasCode::ImplementationSpecificError),
            0x87 => Ok(ReasCode::NotAuthorized),
            0x90 => Ok(ReasCode::TopicNameInvalid),
            0x91 => Ok(ReasCode::PacketIdentifierInUse),
            0x92 => Ok(ReasCode::PacketIdNotFound),
            0x97 => Ok(ReasCode::QuotaExceeded),
            0x99 => Ok(ReasCode::PayloadFormatInvalid),
            _ => Err(Error::malformed()),
        }
    }
}

impl Default for ReasCode {
    fn default() -> (r: ReasCode)
        ensures
            r == ReasCode::Success,
    {
        ReasCode::Success
    }
}

/// The four kinds of packet that acknowledge a PUBLISH.
pub open spec fn in_family(t: PacketType) -> bool {
    t == PacketType::PubAck || t == PacketType::PubRec || t == PacketType::PubRel || t
        == PacketType::PubComp
}

/// The reason codes that a packet of kind `t` may carry: a PUBREL and a
/// PUBCOMP say "success" or "packet identifier not found" and nothing else;
/// a PUBACK and a PUBREC say anything but "packet identifier not found".
pub open spec fn code_valid(t: PacketType, code: ReasCode) -> bool {
    if t == PacketType::PubRel || t == PacketType::PubComp {
        code == ReasCode::Success || code == ReasCode::PacketIdNotFound
    } else {
        code != ReasCode::PacketIdNotFound
    }
}

/// The properties of an acknowledgement of a PUBLISH.
#[derive(Debug, Clone, PartialEq, Eq)]
pub struct Properties {
    pub reason_string: Option<String>,
    pub user_properties: Vec<UserProperty>,
}

/// The properties of an acknowledgement, with text as its bytes.
pub ghost struct PropertiesView {
    pub reason_string: Option<Seq<u8>>,
    pub user_properties: Seq<(Seq<u8>, Seq<u8>)>,
}

impl View for Properties {
    type V = PropertiesView;

    open spec fn view(&self) -> PropertiesView {
        PropertiesView {
            reason_string: opt_str_view(self.reason_string),
            user_properties: user_props_view(self.user_properties@),
        }
    }
}

impl PropertiesView {
    pub open spec fn from_bag(bag: PropsView) -> PropertiesView {
        PropertiesView { reason_string: bag.reason_string, user_properties: bag.user_properties }
    }

    pub open spec fn to_bag(self) -> PropsView {
        PropsView {
            reason_string: self.reason_string,
            user_properties: self.user_properties,
            ..PropsView::empty()
        }
    }

    pub open spec fn is_empty(self) -> bool {
        self.reason_string is None && self.user_properties.len() == 0
    }

    /// Every value is short enough to be written.
    pub open spec fn fits(self) -> bool {
        &&& opt_fits(prop_text(PropertyType::ReasonString, self.reason_string))
        &&& users_fit(self.user_properties)
    }

    /// Every value can be written and all text is UTF-8.
    pub open spec fn wf(self) -> bool {
        &&& self.fits()
        &&& (self.reason_string matches Some(r) ==> valid_utf8(r))
        &&& users_wf(self.user_properties)
    }

    /// The properties one behind the other: the reason string, then the user
    /// properties.
    pub open spec fn enc_body(self) -> Seq<u8> {
        enc_opt(prop_text(PropertyType::ReasonString, self.reason_string)) + enc_users(
            self.user_properties,
        )
    }

    /// The properties section read at position `i`.
    pub open spec fn dec(s: Seq<u8>, i: int) -> Result<(PropertiesView, int), Error> {
        match dec_section(PropCtx::PubAck, s, i) {
            Err(e) => Err(e),
            Ok((bag, n)) => Ok((PropertiesView::from_bag(bag), n)),
        }
    }
}

/// The view of properties that may be absent.
pub open spec fn opt_properties_view(p: Option<Properties>) -> Option<PropertiesView> {
    match p {
        Some(p) => Some(p@),
        None => None,
    }
}

/// The properties that a bag holds, if there is a bag.
pub open spec fn opt_from_bag(b: Option<PropsView>) -> Option<PropertiesView> {
    match b {
        Some(b) => Some(PropertiesView::from_bag(b)),
        None => None,
    }
}

impl Default for Properties {
    fn default() -> (p: Properties)
        ensures
            p@.is_empty(),
    {
        Properties { reason_string: None, user_properties: Vec::new() }
    }
}

impl Properties {
    pub(crate) fn from_bag(bag: PropBag) -> (p: Properties)
        ensures
            p@ == PropertiesView::from_bag(bag@),
    {
        Properties { reason_string: bag.reason_string, user_properties: bag.user_properties }
    }

    /// Whether no property is set.
    pub fn is_empty(&self) -> (b: bool)
        ensures
            b == self@.is_empty(),
    {
        self.reason_string.is_none() && self.user_properties.len() == 0
    }

    /// Reads the properties section that starts at `off`. Only a reason string
    /// and user properties may stand in it, the reason string once.
    pub fn decode(stream: &[u8], off: usize) -> (res: Result<(Properties, usize), Error>)
        ensures
            agrees_view(res, PropertiesView::dec(stream@, off as int)),
    {
        match PropBag::decode(PropCtx::PubAck, stream, off) {
            Err(e) => Err(e),
            Ok((bag, n)) => Ok((Properties::from_bag(bag), n)),
        }
    }

    /// Appends the properties, without the length of the section.
    pub fn encode_body(&self, data: &mut Vec<u8>) -> (res: Result<(), Error>)
        ensures
            self@.fits() ==> res is Ok && final(data)@ == old(data)@ + self@.enc_body(),
            !self@.fits() ==> res == Err::<(), Error>(malformed()),
    {
        match put_prop_text(data, PropertyType::ReasonString, opt_str(&self.reason_string)) {
            Err(e) => {
                return Err(e);
            },
            Ok(()) => {},
        }
        match put_user_props(data, &self.user_properties) {
            Err(e) => {
                return Err(e);
            },
            Ok(()) => {},
        }
        assert(data@ =~= old(data)@ + self@.enc_body());
        Ok(())
    }

    /// The properties section: its length, then the properties. A value that
    /// is too long to be written, and a section longer than a variable-byte
    /// integer can say, are malformed.
    pub fn encode(&self) -> (res: Result<Vec<u8>, Error>)
        ensures
            match res {
                Ok(v) => spec_encode_section(self@.fits(), self@.enc_body()) == Ok::<
                    Seq<u8>,
                    Error,
                >(v@),
                Err(e) => spec_encode_section(self@.fits(), self@.enc_body()) == Err::<
                    Seq<u8>,
                    Error,
                >(e),
            },
    {
        let mut body: Vec<u8> = Vec::new();
        match self.encode_body(&mut body) {
            Err(e) => {
                return Err(e);
            },
            Ok(()) => {},
        }
        assert(body@ =~= self@.enc_body());
        wrap_section(body)
    }
}

/// The bytes of a properties section whose properties are `body`, where the
/// values fit and the section is not too long.
pub open spec fn spec_encode_section(fits: bool, body: Seq<u8>) -> Result<Seq<u8>, Error> {
    if fits && body.len() <= VARU32_MAX {
        Ok(enc_section(body))
    } else {
        Err(malformed())
    }
}

/// Puts the length of `body` in front of it.
pub fn wrap_section(body: Vec<u8>) -> (res: Result<Vec<u8>, Error>)
    ensures
        body@.len() <= VARU32_MAX ==> (res matches Ok(v) && v@ == enc_section(body@)),
        body@.len() > VARU32_MAX ==> res == Err::<Vec<u8>, Error>(malformed()),
{
    if body.len() > VARU32_MAX as usize {
        return Err(Error::malformed());
    }
    let mut data: Vec<u8> = Vec::new();
    let _ = put_varu32(&mut data, body.len() as u32);
    put_raw(&mut data, body.as_slice());
    assert(data@ =~= enc_section(body@));
    Ok(data)
}

/// PUBACK, PUBREC, PUBREL or PUBCOMP.
#[derive(Debug, Clone, PartialEq, Eq)]
pub struct PubARLC {
    pub packet_type: PacketType,
    pub packet_id: u16,
    pub code: ReasCode,
    pub properties: Option<Properties>,
}

/// An acknowledgement of a PUBLISH, with text as its bytes.
pub ghost struct PubARLCView {
    pub packet_type: PacketType,
    pub packet_id: u16,
    pub code: ReasCode,
    pub properties: Option<PropertiesView>,
}

impl View for PubARLC {
    type V = PubARLCView;

    open spec fn view(&self) -> PubARLCView {
        PubARLCView {
            packet_type: self.packet_type,
            packet_id: self.packet_id,
            code: self.code,
            properties: opt_properties_view(self.properties),
        }
    }
}

impl PubARLCView {
    /// The bytes of the properties, without the length of their section.
    pub open spec fn props_body(self) -> Seq<u8> {
        match self.properties {
            Some(p) => p.enc_body(),
            None => Seq::empty(),
        }
    }

    /// Everything behind the fixed header: packet identifier, reason code and
    /// properties section.
    pub open spec fn body(self) -> Seq<u8> {
        enc_u16(self.packet_id) + enc_u8(self.code.spec_to_u8()) + enc_section(self.props_body())
    }

    pub open spec fn header(self) -> FixedHeader {
        FixedHeader {
            byte1: first_byte(self.packet_type, self.packet_type.spec_fixed_flags()->Some_0),
            remaining_len: VarU32(self.body().len() as u32),
        }
    }

    /// The rules that a packet keeps before it is written and after it was read:
    /// it is of one of the four kinds, and its reason code is one that its kind
    /// may carry.
    pub open spec fn spec_validate(self) -> Result<(), Error> {
        if !in_family(self.packet_type) {
            Err(invalid_input())
        } else if !code_valid(self.packet_type, self.code) {
            Err(protocol_error())
        } else {
            Ok(())
        }
    }

    /// The properties can be written.
    pub open spec fn fits(self) -> bool {
        match self.properties {
            Some(p) => p.fits(),
            None => true,
        }
    }

    /// The bytes of the packet, or why it cannot be written.
    pub open spec fn spec_encode(self) -> Result<Seq<u8>, Error> {
        match self.spec_validate() {
            Err(e) => Err(e),
            Ok(()) => if !self.fits() || self.body().len() > VARU32_MAX {
                Err(malformed())
            } else {
                Ok(self.header().enc() + self.body())
            },
        }
    }

    /// The packet that stands at position `i`, and the position behind what was
    /// read of it.
    ///
    /// With a remaining length of 2 the packet ends behind the packet
    /// identifier and its reason code is "success"; with a remaining length of
    /// 3 it ends behind the reason code; otherwise a properties section
    /// follows, and one of length 0 counts as absent.
    #[verifier::opaque]
    pub open spec fn dec(s: Seq<u8>, i: int) -> Result<(PubARLCView, int), Error> {
        match FixedHeader::dec(s, i) {
            Err(e) => Err(e),
            Ok((fh, n1)) => match fh.spec_validate() {
                Err(e) => Err(e),
                Ok(()) => {
                    let t = fh.spec_packet_type()->Ok_0;
                    if !in_family(t) || fh.remaining_len.0 < 2 {
                        Err(malformed())
                    } else {
                        match dec_u16(s, n1) {
                            Err(e) => Err(e),
                            Ok((pid, n2)) => if fh.remaining_len.0 == 2 {
                                Ok(
                                    (
                                        PubARLCView {
                                            packet_type: t,
                                            packet_id: pid,
                                            code: ReasCode::Success,
                                            properties: None,
                                        },
                                        n2,
                                    ),
                                )
                            } else {
                                Self::dec_tail(s, n2, t, pid, fh.remaining_len.0)
                            },
                        }
                    }
                },
            },
        }
    }

    /// The rest of a packet whose remaining length is above 2, from the reason
    /// code on.
    pub open spec fn dec_tail(s: Seq<u8>, n2: int, t: PacketType, pid: u16, remaining: u32) -> Result<
        (PubARLCView, int),
        Error,
    > {
        match dec_u8(s, n2) {
            Err(e) => Err(e),
            Ok((c, n3)) => match ReasCode::spec_from_u8(c) {
                Err(e) => Err(e),
                Ok(code) => if !code_valid(t, code) {
                    Err(protocol_error())
                } else if remaining < 4 {
                    Ok(
                        (
                            PubARLCView { packet_type: t, packet_id: pid, code, properties: None },
                            n3,
                        ),
                    )
                } else {
                    match dec_opt_section(PropCtx::PubAck, s, n3) {
                        Err(e) => Err(e),
                        Ok((ob, n4)) => Ok(
                            (
                                PubARLCView {
                                    packet_type: t,
                                    packet_id: pid,
                                    code,
                                    properties: opt_from_bag(ob),
                                },
                                n4,
                            ),
                        ),
                    }
                },
            },
        }
    }

    /// The packet reads back as itself: its properties are well-formed, and if
    /// there are properties, there is at least one.
    pub open spec fn canonical(self) -> bool {
        match self.properties {
            Some(p) => p.wf() && !p.is_empty(),
            None => true,
        }
    }
}

impl PubARLC {
    /// Whether `t` is one of the four kinds of acknowledgement.
    pub fn is_in_family(t: PacketType) -> (b: bool)
        ensures
            b == in_family(t),
    {
        match t {
            PacketType::PubAck | PacketType::PubRec | PacketType::PubRel | PacketType::PubComp => true,
            _ => false,
        }
    }

    /// Whether a packet of kind `t` may carry `code`.
    pub fn is_code_valid(t: PacketType, code: ReasCode) -> (b: bool)
        ensures
            b == code_valid(t, code),
    {
        let not_found = match code {
            ReasCode::PacketIdNotFound => true,
            _ => false,
        };
        let success = match code {
            ReasCode::Success => true,
            _ => false,
        };
        match t {
            PacketType::PubRel | PacketType::PubComp => success || not_found,
            _ => !not_found,
        }
    }

    /// Checks the kind of the packet and that its reason code goes with it.
    pub fn validate(&self) -> (res: Result<(), Error>)
        ensures
            res == self@.spec_validate(),
    {
        if !Self::is_in_family(self.packet_type) {
            Err(Error::invalid_input())
        } else if !Self::is_code_valid(self.packet_type, self.code) {
            Err(Error::protocol_error())
        } else {
            Ok(())
        }
    }

    /// Reads an acknowledgement from the start of `stream`; returns it with the
    /// number of bytes read.
    pub fn decode(stream: &[u8]) -> (res: Result<(PubARLC, usize), Error>)
        ensures
            agrees_view(res, PubARLCView::dec(stream@, 0)),
    {
        reveal(PubARLCView::dec);
        let (fh, n1) = match FixedHeader::decode(stream, 0) {
            Err(e) => {
                return Err(e);
            },
            Ok(x) => x,
        };
        match fh.validate() {
            Err(e) => {
                return Err(e);
            },
            Ok(()) => {},
        }
        let packet_type = match PacketType::try_from_u8(fh.byte1 / 16) {
            Err(e) => {
                return Err(e);
            },
            Ok(t) => t,
        };
        if !Self::is_in_family(packet_type) || fh.remaining_len.0 < 2 {
            return Err(Error::malformed());
        }
        let (packet_id, n2) = match decode_u16(stream, n1) {
            Err(e) => {
                return Err(e);
            },
            Ok(x) => x,
        };
        if fh.remaining_len.0 == 2 {
            let packet = PubARLC { packet_type, packet_id, code: ReasCode::Success, properties: None };
            return Ok((packet, n2));
        }
        let (c, n3) = match decode_u8(stream, n2) {
            Err(e) => {
                return Err(e);
            },
            Ok(x) => x,
        };
        let code = match ReasCode::try_from_u8(c) {
            Err(e) => {
                return Err(e);
            },
            Ok(x) => x,
        };
        if !Self::is_code_valid(packet_type, code) {
            return Err(Error::protocol_error());
        }
        if fh.remaining_len.0 < 4 {
            let packet = PubARLC { packet_type, packet_id, code, properties: None };
            return Ok((packet, n3));
        }
        let (bag, n4) = match PropBag::decode_opt(PropCtx::PubAck, stream, n3) {
            Err(e) => {
                return Err(e);
            },
            Ok(x) => x,
        };
        let properties = match bag {
            Some(b) => Some(Properties::from_bag(b)),
            None => None,
        };
        Ok((PubARLC { packet_type, packet_id, code, properties }, n4))
    }

    /// The bytes of the packet: fixed header, packet identifier, reason code and
    /// properties section, always in this long form.
    pub fn encode(&self) -> (res: Result<Vec<u8>, Error>)
        ensures
            match res {
                Ok(v) => self@.spec_encode() == Ok::<Seq<u8>, Error>(v@),
                Err(e) => self@.spec_encode() == Err::<Seq<u8>, Error>(e),
            },
    {
        match self.validate() {
            Err(e) => {
                return Err(e);
            },
            Ok(()) => {},
        }
        let mut props: Vec<u8> = Vec::new();
        match &self.properties {
            Some(p) => match p.encode_body(&mut props) {
                Err(e) => {
                    return Err(e);
                },
                Ok(()) => {},
            },
            None => {},
        }
        assert(props@ =~= self@.props_body());
        let section = match wrap_section(props) {
            Err(e) => {
                proof {
                    lemma_body_len(self@);
                }
                return Err(e);
            },
            Ok(s) => s,
        };
        let mut data: Vec<u8> = Vec::new();
        put_u16(&mut data, self.packet_id);
        put_u8(&mut data, self.code.to_u8());
        put_raw(&mut data, section.as_slice());
        assert(data@ =~= self@.body());
        if data.len() > VARU32_MAX as usize {
            return Err(Error::malformed());
        }
        let fh = match FixedHeader::new(self.packet_type, VarU32(data.len() as u32)) {
            Err(e) => {
                return Err(e);
            },
            Ok(fh) => fh,
        };
        let mut out: Vec<u8> = Vec::new();
        let _ = fh.encode_into(&mut out);
        put_raw(&mut out, data.as_slice());
        assert(out@ =~= self@.header().enc() + self@.body());
        Ok(out)
    }
}

/// The body of a packet is longer than the properties in it.
pub proof fn lemma_body_len(v: PubARLCView)
    ensures
        v.body().len() > v.props_body().len(),
{
}

/// The properties of an acknowledgement, read back where they were written,
/// are the properties written.
#[verifier::rlimit(40)]
pub proof fn lemma_dec_enc_properties(s: Seq<u8>, i: int, p: PropertiesView)
    requires
        p.wf(),
        p.enc_body().len() <= VARU32_MAX,
        has_at(s, i, enc_section(p.enc_body())),
    ensures
        dec_section(PropCtx::PubAck, s, i) == Ok::<(PropsView, int), Error>(
            (p.to_bag(), i + enc_section(p.enc_body()).len()),
        ),
        PropertiesView::dec(s, i) == Ok::<(PropertiesView, int), Error>(
            (p, i + enc_section(p.enc_body()).len()),
        ),
{
    let ctx = PropCtx::PubAck;
    let body = p.enc_body();
    lemma_section_frame(s, i, body);
    let j = i + varu32_len(body.len() as u32);
    let t = s.subrange(0, j + body.len());
    let e1 = enc_opt(prop_text(PropertyType::ReasonString, p.reason_string));
    lemma_has_at_split(t, j, e1, enc_users(p.user_properties));
    let b0 = PropsView::empty();
    let bag = p.to_bag();
    lemma_step_reason_string(ctx, t, j, b0, p.reason_string);
    let b1 = PropsView { reason_string: p.reason_string, ..b0 };
    lemma_dec_props_users(ctx, t, j + e1.len(), b1, p.user_properties);
    assert(b1.user_properties + p.user_properties =~= p.user_properties);
    assert(PropertiesView::from_bag(bag) == p);
}

/// The reason code and the properties section of a canonical packet, read
/// back where they were written, are the ones written.
#[verifier::rlimit(40)]
pub proof fn lemma_dec_enc_tail(s: Seq<u8>, n2: int, v: PubARLCView, remaining: u32)
    requires
        v.spec_validate() is Ok,
        v.fits(),
        v.props_body().len() <= VARU32_MAX,
        v.canonical(),
        remaining >= 4,
        has_at(s, n2, enc_u8(v.code.spec_to_u8()) + enc_section(v.props_body())),
    ensures
        PubARLCView::dec_tail(s, n2, v.packet_type, v.packet_id, remaining) == Ok::<
            (PubARLCView, int),
            Error,
        >((v, n2 + 1 + enc_section(v.props_body()).len())),
{
    lemma_has_at_split(s, n2, enc_u8(v.code.spec_to_u8()), enc_section(v.props_body()));
    lemma_dec_enc_u8(s, n2, v.code.spec_to_u8());
    let n3 = n2 + 1;
    match v.properties {
        Some(p) => {
            lemma_dec_enc_properties(s, n3, p);
            lemma_section_frame(s, n3, p.enc_body());
            lemma_nonempty_body(p);
        },
        None => {
            lemma_section_frame(s, n3, Seq::<u8>::empty());
        },
    }
}

/// Reading is the inverse of writing: a packet that `encode` accepts and that
/// is canonical is what `decode` reads from the bytes that `encode` gave, and
/// all of those bytes are read.
#[verifier::rlimit(40)]
pub proof fn law_decode_encode(v: PubARLCView)
    requires
        v.spec_encode() is Ok,
        v.canonical(),
    ensures
        PubARLCView::dec(v.spec_encode()->Ok_0, 0) == Ok::<(PubARLCView, int), Error>(
            (v, v.spec_encode()->Ok_0.len() as int),
        ),
{
    reveal(PubARLCView::dec);
    let s = v.spec_encode()->Ok_0;
    let fh = v.header();
    let body = v.body();
    let section = enc_section(v.props_body());
    let tail = enc_u8(v.code.spec_to_u8()) + section;
    assert(body =~= enc_u16(v.packet_id) + tail);
    lemma_has_at_start(section, Seq::<u8>::empty());
    assert(section + Seq::<u8>::empty() =~= section);
    lemma_section_frame(section, 0, v.props_body());
    lemma_has_at_start(fh.enc(), body);
    lemma_dec_enc_fixed_header(s, 0, fh);
    lemma_first_byte(v.packet_type);
    let n1 = fh.enc().len() as int;
    lemma_has_at_split(s, n1, enc_u16(v.packet_id), tail);
    lemma_dec_enc_u16(s, n1, v.packet_id);
    lemma_dec_enc_tail(s, n1 + 2, v, fh.remaining_len.0);
}

/// Properties of which there is at least one take at least two bytes.
pub proof fn lemma_nonempty_body(p: PropertiesView)
    requires
        !p.is_empty(),
    ensures
        p.enc_body().len() >= 2,
{
    if p.user_properties.len() > 0 {
        let us = p.user_properties;
        assert(enc_users(us) == enc_users(us.drop_last()) + crate::v5::property::user_prop(
            us.last(),
        ).enc());
    }
}

/// The properties that a valid section of an acknowledgement holds are
/// well-formed, take the bytes of the section's properties, and are none
/// exactly when the section holds none.
pub proof fn lemma_properties_from_bag(bag: PropsView)
    requires
        bag.valid_for(PropCtx::PubAck),
    ensures
        PropertiesView::from_bag(bag).wf(),
        PropertiesView::from_bag(bag).enc_body().len() == bag.size(),
        PropertiesView::from_bag(bag).is_empty() == bag.is_empty(),
{
}

/// Writing is the inverse of reading, up to the form of what was read: an
/// acknowledgement that `decode` read from any bytes, in whatever form it
/// stood there, is canonical, is accepted by `encode` unless its properties
/// are too long for a packet, and is read back from what `encode` gives.
#[verifier::rlimit(40)]
pub proof fn law_encode_decode(b: Seq<u8>)
    requires
        PubARLCView::dec(b, 0) is Ok,
        PubARLCView::dec(b, 0)->Ok_0.0.body().len() <= VARU32_MAX,
    ensures
        ({
            let p = PubARLCView::dec(b, 0)->Ok_0.0;
            &&& p.canonical()
            &&& p.spec_encode() is Ok
            &&& PubARLCView::dec(p.spec_encode()->Ok_0, 0) == Ok::<(PubARLCView, int), Error>(
                (p, p.spec_encode()->Ok_0.len() as int),
            )
        }),
{
    reveal(PubARLCView::dec);
    let p = PubARLCView::dec(b, 0)->Ok_0.0;
    let (fh, n1) = FixedHeader::dec(b, 0)->Ok_0;
    if fh.remaining_len.0 >= 4 {
        let n3 = n1 + 3;
        lemma_dec_section_valid(PropCtx::PubAck, b, n3);
        match dec_opt_section(PropCtx::PubAck, b, n3)->Ok_0.0 {
            Some(bag) => {
                lemma_properties_from_bag(bag);
            },
            None => {},
        }
    }
    law_decode_encode(p);
}

} // verus!
