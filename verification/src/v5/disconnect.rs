//! The DISCONNECT packet.

use vstd::prelude::*;
use vstd::utf8::*;
use crate::error::{Error, malformed, protocol_error};
use crate::wire::{
    agrees_view, dec_u8, decode_u8, enc_u8, has_at, lemma_append_assoc, lemma_dec_enc_u8,
    lemma_has_at_split, lemma_has_at_start, put_raw, put_u8, varu32_len, FIELD_MAX, VARU32_MAX,
};
use crate::v5::{
    first_byte, lemma_dec_enc_fixed_header, lemma_first_byte, opt_str_view, user_props_view,
    FixedHeader, PacketType, UserProperty, VarU32,
};
use crate::v5::connect::{check_users_fit, lemma_users_nonempty};
use crate::v5::property::{
    dec_opt_section, dec_section, enc_opt, enc_section, enc_users, lemma_dec_props_users,
    lemma_dec_section_valid, lemma_section_frame, opt_fits, opt_str, prop_text, prop_u32,
    put_prop_text, put_prop_u32, put_user_props, users_fit, users_wf, PropBag, PropCtx,
    PropertyType, PropsView, lemma_step_reason_string, lemma_step_server_reference,
    lemma_step_session_expiry_interval,
};
use crate::v5::pubaclc::wrap_section;

verus! {

/// Collection of MQTT properties allowed in a DISCONNECT packet.
#[derive(Clone, Eq, PartialEq, Debug)]
pub struct DisconnectProperties {
    pub session_expiry_interval: Option<u32>,
    pub reason_string: Option<String>,
    pub server_reference: Option<String>,
    pub user_properties: Vec<UserProperty>,
}

/// The properties of a DISCONNECT, with text as its bytes.
pub ghost struct DisconnectPropertiesView {
    pub session_expiry_interval: Option<u32>,
    pub reason_string: Option<Seq<u8>>,
    pub server_reference: Option<Seq<u8>>,
    pub user_properties: Seq<(Seq<u8>, Seq<u8>)>,
}

impl View for DisconnectProperties {
    type V = DisconnectPropertiesView;

    open spec fn view(&self) -> DisconnectPropertiesView {
        DisconnectPropertiesView {
            session_expiry_interval: self.session_expiry_interval,
            reason_string: opt_str_view(self.reason_string),
            server_reference: opt_str_view(self.server_reference),
            user_properties: user_props_view(self.user_properties@),
        }
    }
}

impl DisconnectPropertiesView {
    pub open spec fn from_bag(bag: PropsView) -> DisconnectPropertiesView {
        DisconnectPropertiesView {
            session_expiry_interval: bag.session_expiry_interval,
            reason_string: bag.reason_string,
            server_reference: bag.server_reference,
            user_properties: bag.user_properties,
        }
    }

    pub open spec fn to_bag(self) -> PropsView {
        PropsView {
            session_expiry_interval: self.session_expiry_interval,
            reason_string: self.reason_string,
            server_reference: self.server_reference,
            user_properties: self.user_properties,
            ..PropsView::empty()
        }
    }

    pub open spec fn is_empty(self) -> bool {
        &&& self.session_expiry_interval is None
        &&& self.reason_string is None
        &&& self.server_reference is None
        &&& self.user_properties.len() == 0
    }

    /// Every value is short enough to be written.
    pub open spec fn fits(self) -> bool {
        &&& opt_fits(prop_text(PropertyType::ReasonString, self.reason_string))
        &&& opt_fits(prop_text(PropertyType::ServerReference, self.server_reference))
        &&& users_fit(self.user_properties)
    }

    /// There is no rule on single values.
    pub open spec fn spec_validate(self) -> Result<(), Error> {
        Ok(())
    }

    /// Every value keeps the rules, can be written, and is UTF-8 where it is
    /// text.
    pub open spec fn wf(self) -> bool {
        &&& self.spec_validate() is Ok
        &&& self.fits()
        &&& (self.reason_string matches Some(m) ==> valid_utf8(m))
        &&& (self.server_reference matches Some(m) ==> valid_utf8(m))
        &&& users_wf(self.user_properties)
    }

    /// The properties one behind the other, in the order of the fields, user
    /// properties last.
    #[verifier::opaque]
    pub open spec fn enc_body(self) -> Seq<u8> {
        enc_opt(prop_u32(PropertyType::SessionExpiryInterval, self.session_expiry_interval))
            + enc_opt(prop_text(PropertyType::ReasonString, self.reason_string))
            + enc_opt(prop_text(PropertyType::ServerReference, self.server_reference))
            + enc_users(self.user_properties)
    }

    /// The properties section read at position `i`.
    pub open spec fn dec(s: Seq<u8>, i: int) -> Result<(DisconnectPropertiesView, int), Error> {
        match dec_section(PropCtx::Disconnect, s, i) {
            Err(e) => Err(e),
            Ok((bag, n)) => Ok((DisconnectPropertiesView::from_bag(bag), n)),
        }
    }
}

/// The view of properties that may be absent.
pub open spec fn opt_disconnect_props_view(p: Option<DisconnectProperties>) -> Option<DisconnectPropertiesView> {
    match p {
        Some(p) => Some(p@),
        None => None,
    }
}

/// The properties that a bag holds, if there is a bag.
pub open spec fn opt_disconnect_from_bag(b: Option<PropsView>) -> Option<DisconnectPropertiesView> {
    match b {
        Some(b) => Some(DisconnectPropertiesView::from_bag(b)),
        None => None,
    }
}

impl Default for DisconnectProperties {
    fn default() -> (p: DisconnectProperties)
        ensures
            p@.is_empty(),
    {
        DisconnectProperties {
            session_expiry_interval: None,
            reason_string: None,
            server_reference: None,
            user_properties: Vec::new(),
        }
    }
}

impl DisconnectProperties {
    pub(crate) fn from_bag(bag: PropBag) -> (p: DisconnectProperties)
        ensures
            p@ == DisconnectPropertiesView::from_bag(bag@),
    {
        DisconnectProperties {
            session_expiry_interval: bag.session_expiry_interval,
            reason_string: bag.reason_string,
            server_reference: bag.server_reference,
            user_properties: bag.user_properties,
        }
    }

    /// Whether no property is set.
    pub fn is_empty(&self) -> (b: bool)
        ensures
            b == self@.is_empty(),
    {
        self.session_expiry_interval.is_none() && self.reason_string.is_none() && self.server_reference.is_none() && self.user_properties.len() == 0
    }

    /// Checks the rules on single values.
    pub fn validate(&self) -> (res: Result<(), Error>)
        ensures
            res == self@.spec_validate(),
    {
        Ok(())
    }

    /// Reads the properties section that starts at `off`.
    pub fn decode(stream: &[u8], off: usize) -> (res: Result<(DisconnectProperties, usize), Error>)
        ensures
            agrees_view(res, DisconnectPropertiesView::dec(stream@, off as int)),
    {
        match PropBag::decode(PropCtx::Disconnect, stream, off) {
            Err(e) => Err(e),
            Ok((bag, n)) => Ok((DisconnectProperties::from_bag(bag), n)),
        }
    }

    /// Whether every value is short enough to be written.
    pub fn check_fits(&self) -> (b: bool)
        ensures
            b == self@.fits(),
    {
        let f1 = match &self.reason_string {
            Some(s) => s.as_str().as_bytes().len() <= FIELD_MAX,
            None => true,
        };
        let f2 = match &self.server_reference {
            Some(s) => s.as_str().as_bytes().len() <= FIELD_MAX,
            None => true,
        };
        f1 && f2 && check_users_fit(&self.user_properties)
    }

    /// Appends the properties, without the length of the section.
    pub fn encode_body(&self, data: &mut Vec<u8>) -> (res: Result<(), Error>)
        ensures
            self@.fits() ==> res is Ok && final(data)@ == old(data)@ + self@.enc_body(),
            !self@.fits() ==> res == Err::<(), Error>(malformed()),
    {
        reveal(DisconnectPropertiesView::enc_body);
        if !self.check_fits() {
            return Err(Error::malformed());
        }
        let ghost d0 = data@;
        let ghost v = self@;
        let ghost mut acc: Seq<u8> = Seq::empty();
        put_prop_u32(data, PropertyType::SessionExpiryInterval, self.session_expiry_interval);
        proof {
            acc = enc_opt(prop_u32(PropertyType::SessionExpiryInterval, v.session_expiry_interval));
        }
        let _ = put_prop_text(data, PropertyType::ReasonString, opt_str(&self.reason_string));
        proof {
            let e = enc_opt(prop_text(PropertyType::ReasonString, v.reason_string));
            lemma_append_assoc(d0, acc, e);
            acc = acc + e;
        }
        let _ = put_prop_text(data, PropertyType::ServerReference, opt_str(&self.server_reference));
        proof {
            let e = enc_opt(prop_text(PropertyType::ServerReference, v.server_reference));
            lemma_append_assoc(d0, acc, e);
            acc = acc + e;
        }
        let _ = put_user_props(data, &self.user_properties);
        proof {
            lemma_append_assoc(d0, acc, enc_users(v.user_properties));
        }
        Ok(())
    }
}

/// The properties of a DISCONNECT, read back where they were written, are the
/// properties written.
#[verifier::rlimit(40)]
pub proof fn lemma_dec_enc_disconnect_properties(s: Seq<u8>, i: int, p: DisconnectPropertiesView)
    requires
        p.wf(),
        p.enc_body().len() <= VARU32_MAX,
        has_at(s, i, enc_section(p.enc_body())),
    ensures
        DisconnectPropertiesView::dec(s, i) == Ok::<(DisconnectPropertiesView, int), Error>(
            (p, i + enc_section(p.enc_body()).len()),
        ),
        dec_opt_section(PropCtx::Disconnect, s, i) == Ok::<(Option<PropsView>, int), Error>(
            (
                if p.enc_body().len() == 0 {
                    None
                } else {
                    Some(p.to_bag())
                },
                i + enc_section(p.enc_body()).len(),
            ),
        ),
{
    reveal(DisconnectPropertiesView::enc_body);
    let ctx = PropCtx::Disconnect;
    let body = p.enc_body();
    lemma_section_frame(s, i, body);
    let j = i + varu32_len(body.len() as u32);
    let t = s.subrange(0, j + body.len());
    let bag = p.to_bag();
    let o1 = prop_u32(PropertyType::SessionExpiryInterval, p.session_expiry_interval);
    let o2 = prop_text(PropertyType::ReasonString, p.reason_string);
    let o3 = prop_text(PropertyType::ServerReference, p.server_reference);
    let a1 = enc_opt(o1);
    let a2 = a1 + enc_opt(o2);
    let a3 = a2 + enc_opt(o3);
    lemma_has_at_split(t, j, a3, enc_users(p.user_properties));
    lemma_has_at_split(t, j, a2, enc_opt(o3));
    lemma_has_at_split(t, j, a1, enc_opt(o2));
    let b0 = PropsView::empty();
    lemma_step_session_expiry_interval(ctx, t, j, b0, p.session_expiry_interval);
    let b1 = PropsView { session_expiry_interval: p.session_expiry_interval, ..b0 };
    lemma_step_reason_string(ctx, t, j + a1.len(), b1, p.reason_string);
    let b2 = PropsView { reason_string: p.reason_string, ..b1 };
    lemma_step_server_reference(ctx, t, j + a2.len(), b2, p.server_reference);
    let b3 = PropsView { server_reference: p.server_reference, ..b2 };
    lemma_dec_props_users(ctx, t, j + a3.len(), b3, p.user_properties);
    assert(b3.user_properties + p.user_properties =~= p.user_properties);
    assert(DisconnectPropertiesView::from_bag(bag) == p);
}

/// Properties of which there is at least one take at least one byte.
pub proof fn lemma_disconnect_props_nonempty(p: DisconnectPropertiesView)
    requires
        !p.is_empty(),
    ensures
        p.enc_body().len() >= 1,
{
    reveal(DisconnectPropertiesView::enc_body);
    if p.user_properties.len() > 0 {
        lemma_users_nonempty(p.user_properties);
    }
}

/// The properties that a valid section holds are well-formed and take,
/// written again, no more bytes than the section's properties.
pub proof fn lemma_disconnect_from_bag(bag: PropsView)
    requires
        bag.valid_for(PropCtx::Disconnect),
    ensures
        DisconnectPropertiesView::from_bag(bag).wf(),
        0 <= DisconnectPropertiesView::from_bag(bag).enc_body().len() == bag.size(),
        DisconnectPropertiesView::from_bag(bag).is_empty() == bag.is_empty(),
{
    reveal(DisconnectPropertiesView::enc_body);
}

/// The reason codes that a DISCONNECT can carry.
pub open spec fn disconnect_code_valid(c: u8) -> bool {
    c == 0x00 || c == 0x04 || c == 0x87 || c == 0x89 || c == 0x8B || (0x80 <= c && c <= 0x83) || (0x8D <= c && c <= 0x90) || (0x93 <= c && c <= 0x9F) || (0xA0 <= c && c <= 0xA2)
}

/// DISCONNECT packet.
#[derive(Clone, Eq, PartialEq, Debug)]
pub struct Disconnect {
    /// The reason code; 0 is "normal disconnection".
    pub code: u8,
    pub properties: Option<DisconnectProperties>,
}

/// A DISCONNECT, with text as its bytes.
pub ghost struct DisconnectView {
    pub code: u8,
    pub properties: Option<DisconnectPropertiesView>,
}

impl View for Disconnect {
    type V = DisconnectView;

    open spec fn view(&self) -> DisconnectView {
        DisconnectView { code: self.code, properties: opt_disconnect_props_view(self.properties) }
    }
}

impl DisconnectView {
    /// The bytes of the properties, without the length of their section.
    pub open spec fn props_body(self) -> Seq<u8> {
        match self.properties {
            Some(p) => p.enc_body(),
            None => Seq::empty(),
        }
    }

    /// Everything behind the fixed header: reason code and properties section.
    pub open spec fn body(self) -> Seq<u8> {
        enc_u8(self.code) + enc_section(self.props_body())
    }

    pub open spec fn header(self) -> FixedHeader {
        FixedHeader {
            byte1: first_byte(PacketType::Disconnect, 0),
            remaining_len: VarU32(self.body().len() as u32),
        }
    }

    /// The rules that a DISCONNECT keeps before it is written and after it was
    /// read: its reason code is one that a DISCONNECT can carry, else it is
    /// malformed; its properties keep the rules on single values, else it is a
    /// protocol error.
    pub open spec fn spec_validate(self) -> Result<(), Error> {
        if !disconnect_code_valid(self.code) {
            Err(malformed())
        } else if self.properties matches Some(p) && p.spec_validate() is Err {
            Err(protocol_error())
        } else {
            Ok(())
        }
    }

    /// The properties can be written.
    pub open spec fn fits(self) -> bool {
        self.properties matches Some(p) ==> p.fits() && p.enc_body().len() <= VARU32_MAX
    }

    /// The bytes of the packet, or why it cannot be written.
    pub open spec fn spec_encode(self) -> Result<Seq<u8>, Error> {
        match self.spec_validate() {
            Err(e) => Err(e),
            Ok(()) => if !self.fits() || self.body().len() > VARU32_MAX {
                Err(malformed())
            } else {
                Ok(self.header().enc() + self.body())
            },
        }
    }

    /// The DISCONNECT that stands at position `i`, and the position behind what was
    /// read of it.
    ///
    /// The fixed header is valid and announces a DISCONNECT. With a remaining
    /// length of 0 the packet ends there, and its reason code is 0; with a
    /// remaining length of 1 it ends behind the reason code; otherwise a
    /// properties section follows, and one of length 0 counts as absent.
    #[verifier::opaque]
    pub open spec fn dec(s: Seq<u8>, i: int) -> Result<(DisconnectView, int), Error> {
        match FixedHeader::dec(s, i) {
            Err(e) => Err(e),
            Ok((fh, n0)) => match fh.spec_validate() {
                Err(e) => Err(e),
                Ok(()) => if fh.spec_packet_type() != Ok::<PacketType, Error>(PacketType::Disconnect) {
                    Err(malformed())
                } else if fh.remaining_len.0 == 0 {
                    Ok((DisconnectView { code: 0, properties: None }, n0))
                } else {
                    match dec_u8(s, n0) {
                        Err(e) => Err(e),
                        Ok((code, n1)) => if !disconnect_code_valid(code) {
                            Err(malformed())
                        } else if fh.remaining_len.0 == 1 {
                            Ok((DisconnectView { code, properties: None }, n1))
                        } else {
                            match dec_opt_section(PropCtx::Disconnect, s, n1) {
                                Err(e) => Err(e),
                                Ok((bag, n2)) => Ok(
                                    (
                                        DisconnectView { code, properties: opt_disconnect_from_bag(bag) },
                                        n2,
                                    ),
                                ),
                            }
                        },
                    }
                },
            },
        }
    }

    /// The DISCONNECT reads back as itself: its properties, where there are any, are
    /// well-formed and not empty.
    pub open spec fn canonical(self) -> bool {
        self.properties matches Some(p) ==> p.wf() && !p.is_empty()
    }
}

/// Whether `c` is a reason code that a DISCONNECT can carry.
pub fn is_disconnect_code(c: u8) -> (b: bool)
    ensures
        b == disconnect_code_valid(c),
{
    c == 0x00 || c == 0x04 || c == 0x87 || c == 0x89 || c == 0x8B || (0x80 <= c && c <= 0x83) || (0x8D <= c && c <= 0x90) || (0x93 <= c && c <= 0x9F) || (0xA0 <= c && c <= 0xA2)
}

impl Disconnect {
    /// Holds the packet to the rules of a DISCONNECT.
    pub fn validate(&self) -> (res: Result<(), Error>)
        ensures
            res == self@.spec_validate(),
    {
        if !is_disconnect_code(self.code) {
            return Err(Error::malformed());
        }
        match &self.properties {
            Some(p) => match p.validate() {
                Err(_) => Err(Error::protocol_error()),
                Ok(()) => Ok(()),
            },
            None => Ok(()),
        }
    }

    /// Reads a DISCONNECT from the start of `stream`; returns it with the number
    /// of bytes read.
    pub fn decode(stream: &[u8]) -> (res: Result<(Disconnect, usize), Error>)
        ensures
            agrees_view(res, DisconnectView::dec(stream@, 0)),
    {
        reveal(DisconnectView::dec);
        let (fh, n0) = match FixedHeader::decode(stream, 0) {
            Err(e) => {
                return Err(e);
            },
            Ok(x) => x,
        };
        match fh.validate() {
            Err(e) => {
                return Err(e);
            },
            Ok(()) => {},
        }
        match PacketType::try_from_u8(fh.byte1 / 16) {
            Ok(PacketType::Disconnect) => {},
            _ => {
                return Err(Error::malformed());
            },
        }
        if fh.remaining_len.0 == 0 {
            return Ok((Disconnect { code: 0, properties: None }, n0));
        }
        let (code, n1) = match decode_u8(stream, n0) {
            Err(e) => {
                return Err(e);
            },
            Ok(x) => x,
        };
        if !is_disconnect_code(code) {
            return Err(Error::malformed());
        }
        if fh.remaining_len.0 == 1 {
            return Ok((Disconnect { code, properties: None }, n1));
        }
        let (bag, n2) = match PropBag::decode_opt(PropCtx::Disconnect, stream, n1) {
            Err(e) => {
                return Err(e);
            },
            Ok(x) => x,
        };
        let properties = match bag {
            Some(b) => Some(DisconnectProperties::from_bag(b)),
            None => None,
        };
        Ok((Disconnect { code, properties }, n2))
    }

    /// The bytes of the packet: fixed header, reason code and properties
    /// section, always in this long form. The packet is first held to the rules
    /// of `validate`; a value that is too long to be written and a packet
    /// longer than a variable-byte integer can say are malformed.
    pub fn encode(&self) -> (res: Result<Vec<u8>, Error>)
        ensures
            match res {
                Ok(v) => self@.spec_encode() == Ok::<Seq<u8>, Error>(v@),
                Err(e) => self@.spec_encode() == Err::<Seq<u8>, Error>(e),
            },
    {
        match self.validate() {
            Err(e) => {
                return Err(e);
            },
            Ok(()) => {},
        }
        let mut props: Vec<u8> = Vec::new();
        match &self.properties {
            Some(p) => match p.encode_body(&mut props) {
                Err(e) => {
                    return Err(e);
                },
                Ok(()) => {},
            },
            None => {},
        }
        assert(props@ =~= self@.props_body());
        let section = match wrap_section(props) {
            Err(e) => {
                return Err(e);
            },
            Ok(s) => s,
        };
        let mut data: Vec<u8> = Vec::new();
        put_u8(&mut data, self.code);
        put_raw(&mut data, section.as_slice());
        assert(data@ =~= self@.body());
        if data.len() > VARU32_MAX as usize {
            return Err(Error::malformed());
        }
        let fh = match FixedHeader::new(PacketType::Disconnect, VarU32(data.len() as u32)) {
            Err(e) => {
                return Err(e);
            },
            Ok(fh) => fh,
        };
        let mut out: Vec<u8> = Vec::new();
        let _ = fh.encode_into(&mut out);
        put_raw(&mut out, data.as_slice());
        assert(out@ =~= self@.header().enc() + self@.body());
        Ok(out)
    }
}

/// Reading is the inverse of writing: a DISCONNECT that `encode` accepts and
/// that is canonical is what `decode` reads from the bytes that `encode` gave,
/// and all of those bytes are read.
#[verifier::rlimit(40)]
pub proof fn law_disconnect_decode_encode(v: DisconnectView)
    requires
        v.spec_encode() is Ok,
        v.canonical(),
    ensures
        DisconnectView::dec(v.spec_encode()->Ok_0, 0) == Ok::<(DisconnectView, int), Error>(
            (v, v.spec_encode()->Ok_0.len() as int),
        ),
{
    reveal(DisconnectView::dec);
    let s = v.spec_encode()->Ok_0;
    let fh = v.header();
    let section = enc_section(v.props_body());
    lemma_has_at_start(section, Seq::<u8>::empty());
    assert(section + Seq::<u8>::empty() =~= section);
    lemma_section_frame(section, 0, v.props_body());
    lemma_has_at_start(fh.enc(), v.body());
    lemma_dec_enc_fixed_header(s, 0, fh);
    lemma_first_byte(PacketType::Disconnect);
    let n0 = fh.enc().len() as int;
    lemma_has_at_split(s, n0, enc_u8(v.code), section);
    lemma_dec_enc_u8(s, n0, v.code);
    match v.properties {
        Some(p) => {
            lemma_dec_enc_disconnect_properties(s, n0 + 1, p);
            lemma_disconnect_props_nonempty(p);
        },
        None => {
            lemma_section_frame(s, n0 + 1, Seq::<u8>::empty());
        },
    }
}

/// Writing is the inverse of reading, up to the form of what was read: a
/// DISCONNECT that `decode` read from any bytes is canonical, is accepted by
/// `encode` unless its properties are too long for a packet, and is read back
/// from what `encode` gives.
#[verifier::rlimit(40)]
pub proof fn law_disconnect_encode_decode(b: Seq<u8>)
    requires
        DisconnectView::dec(b, 0) is Ok,
        DisconnectView::dec(b, 0)->Ok_0.0.body().len() <= VARU32_MAX,
    ensures
        ({
            let v = DisconnectView::dec(b, 0)->Ok_0.0;
            &&& v.canonical()
            &&& v.spec_encode() is Ok
            &&& DisconnectView::dec(v.spec_encode()->Ok_0, 0) == Ok::<(DisconnectView, int), Error>(
                (v, v.spec_encode()->Ok_0.len() as int),
            )
        }),
{
    reveal(DisconnectView::dec);
    let v = DisconnectView::dec(b, 0)->Ok_0.0;
    let (fh, n0) = FixedHeader::dec(b, 0)->Ok_0;
    if fh.remaining_len.0 >= 2 {
        lemma_dec_section_valid(PropCtx::Disconnect, b, n0 + 1);
        match dec_opt_section(PropCtx::Disconnect, b, n0 + 1)->Ok_0.0 {
            Some(bag) => {
                lemma_disconnect_from_bag(bag);
            },
            None => {},
        }
    }
    law_disconnect_decode_encode(v);
}

} // verus!
