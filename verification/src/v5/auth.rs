//! The AUTH packet.

use vstd::prelude::*;
use vstd::utf8::*;
use crate::error::{Error, malformed, protocol_error};
use crate::wire::{
    agrees_view, dec_u8, decode_u8, enc_u8, has_at, lemma_append_assoc, lemma_dec_enc_u8,
    lemma_has_at_split, lemma_has_at_start, put_raw, put_u8, varu32_len, FIELD_MAX, VARU32_MAX,
};
use crate::v5::{
    first_byte, lemma_dec_enc_fixed_header, lemma_first_byte, opt_bin_view, opt_str_view,
    user_props_view, FixedHeader, PacketType, UserProperty, VarU32,
};
use crate::v5::connect::{check_users_fit, lemma_users_nonempty};
use crate::v5::property::{
    dec_opt_section, dec_section, enc_opt, enc_section, enc_users, lemma_dec_props_users,
    lemma_dec_section_valid, lemma_section_frame, opt_fits, opt_str, prop_binary, prop_text,
    put_prop_binary, put_prop_text, put_user_props, users_fit, users_wf, PropBag, PropCtx,
    PropertyType, PropsView, lemma_step_authentication_data, lemma_step_authentication_method,
    lemma_step_reason_string,
};
use crate::v5::pubaclc::wrap_section;

verus! {

/// Collection of MQTT properties allowed in an AUTH packet.
#[derive(Clone, Eq, PartialEq, Debug)]
pub struct AuthProperties {
    pub authentication_method: Option<String>,
    pub authentication_data: Option<Vec<u8>>,
    pub reason_string: Option<String>,
    pub user_properties: Vec<UserProperty>,
}

/// The properties of an AUTH, with text as its bytes.
pub ghost struct AuthPropertiesView {
    pub authentication_method: Option<Seq<u8>>,
    pub authentication_data: Option<Seq<u8>>,
    pub reason_string: Option<Seq<u8>>,
    pub user_properties: Seq<(Seq<u8>, Seq<u8>)>,
}

impl View for AuthProperties {
    type V = AuthPropertiesView;

    open spec fn view(&self) -> AuthPropertiesView {
        AuthPropertiesView {
            authentication_method: opt_str_view(self.authentication_method),
            authentication_data: opt_bin_view(self.authentication_data),
            reason_string: opt_str_view(self.reason_string),
            user_properties: user_props_view(self.user_properties@),
        }
    }
}

impl AuthPropertiesView {
    pub open spec fn from_bag(bag: PropsView) -> AuthPropertiesView {
        AuthPropertiesView {
            authentication_method: bag.authentication_method,
            authentication_data: bag.authentication_data,
            reason_string: bag.reason_string,
            user_properties: bag.user_properties,
        }
    }

    pub open spec fn to_bag(self) -> PropsView {
        PropsView {
            authentication_method: self.authentication_method,
            authentication_data: self.authentication_data,
            reason_string: self.reason_string,
            user_properties: self.user_properties,
            ..PropsView::empty()
        }
    }

    pub open spec fn is_empty(self) -> bool {
        &&& self.authentication_method is None
        &&& self.authentication_data is None
        &&& self.reason_string is None
        &&& self.user_properties.len() == 0
    }

    /// Every value is short enough to be written.
    pub open spec fn fits(self) -> bool {
        &&& opt_fits(prop_text(PropertyType::AuthenticationMethod, self.authentication_method))
        &&& opt_fits(prop_binary(PropertyType::AuthenticationData, self.authentication_data))
        &&& opt_fits(prop_text(PropertyType::ReasonString, self.reason_string))
        &&& users_fit(self.user_properties)
    }

    /// There is no rule on single values.
    pub open spec fn spec_validate(self) -> Result<(), Error> {
        Ok(())
    }

    /// Every value keeps the rules, can be written, and is UTF-8 where it is
    /// text.
    pub open spec fn wf(self) -> bool {
        &&& self.spec_validate() is Ok
        &&& self.fits()
        &&& (self.authentication_method matches Some(m) ==> valid_utf8(m))
        &&& (self.reason_string matches Some(m) ==> valid_utf8(m))
        &&& users_wf(self.user_properties)
    }

    /// The properties one behind the other, in the order of the fields, user
    /// properties last.
    #[verifier::opaque]
    pub open spec fn enc_body(self) -> Seq<u8> {
        enc_opt(prop_text(PropertyType::AuthenticationMethod, self.authentication_method))
            + enc_opt(prop_binary(PropertyType::AuthenticationData, self.authentication_data))
            + enc_opt(prop_text(PropertyType::ReasonString, self.reason_string))
            + enc_users(self.user_properties)
    }

    /// The properties section read at position `i`.
    pub open spec fn dec(s: Seq<u8>, i: int) -> Result<(AuthPropertiesView, int), Error> {
        match dec_section(PropCtx::Auth, s, i) {
            Err(e) => Err(e),
            Ok((bag, n)) => Ok((AuthPropertiesView::from_bag(bag), n)),
        }
    }
}

/// The view of properties that may be absent.
pub open spec fn opt_auth_props_view(p: Option<AuthProperties>) -> Option<AuthPropertiesView> {
    match p {
        Some(p) => Some(p@),
        None => None,
    }
}

/// The properties that a bag holds, if there is a bag.
pub open spec fn opt_auth_from_bag(b: Option<PropsView>) -> Option<AuthPropertiesView> {
    match b {
        Some(b) => Some(AuthPropertiesView::from_bag(b)),
        None => None,
    }
}

impl Default for AuthProperties {
    fn default() -> (p: AuthProperties)
        ensures
            p@.is_empty(),
    {
        AuthProperties {
            authentication_method: None,
            authentication_data: None,
            reason_string: None,
            user_properties: Vec::new(),
        }
    }
}

impl AuthProperties {
    pub(crate) fn from_bag(bag: PropBag) -> (p: AuthProperties)
        ensures
            p@ == AuthPropertiesView::from_bag(bag@),
    {
        AuthProperties {
            authentication_method: bag.authentication_method,
            authentication_data: bag.authentication_data,
            reason_string: bag.reason_string,
            user_properties: bag.user_properties,
        }
    }

    /// Whether no property is set.
    pub fn is_empty(&self) -> (b: bool)
        ensures
            b == self@.is_empty(),
    {
        self.authentication_method.is_none() && self.authentication_data.is_none() && self.reason_string.is_none() && self.user_properties.len() == 0
    }

    /// Checks the rules on single values.
    pub fn validate(&self) -> (res: Result<(), Error>)
        ensures
            res == self@.spec_validate(),
    {
        Ok(())
    }

    /// Reads the properties section that starts at `off`.
    pub fn decode(stream: &[u8], off: usize) -> (res: Result<(AuthProperties, usize), Error>)
        ensures
            agrees_view(res, AuthPropertiesView::dec(stream@, off as int)),
    {
        match PropBag::decode(PropCtx::Auth, stream, off) {
            Err(e) => Err(e),
            Ok((bag, n)) => Ok((AuthProperties::from_bag(bag), n)),
        }
    }

    /// Whether every value is short enough to be written.
    pub fn check_fits(&self) -> (b: bool)
        ensures
            b == self@.fits(),
    {
        let f0 = match &self.authentication_method {
            Some(s) => s.as_str().as_bytes().len() <= FIELD_MAX,
            None => true,
        };
        let f1 = match &self.authentication_data {
            Some(s) => s.len() <= FIELD_MAX,
            None => true,
        };
        let f2 = match &self.reason_string {
            Some(s) => s.as_str().as_bytes().len() <= FIELD_MAX,
            None => true,
        };
        f0 && f1 && f2 && check_users_fit(&self.user_properties)
    }

    /// Appends the properties, without the length of the section.
    pub fn encode_body(&self, data: &mut Vec<u8>) -> (res: Result<(), Error>)
        ensures
            self@.fits() ==> res is Ok && final(data)@ == old(data)@ + self@.enc_body(),
            !self@.fits() ==> res == Err::<(), Error>(malformed()),
    {
        reveal(AuthPropertiesView::enc_body);
        if !self.check_fits() {
            return Err(Error::malformed());
        }
        let ghost d0 = data@;
        let ghost v = self@;
        let ghost mut acc: Seq<u8> = Seq::empty();
        let _ = put_prop_text(data, PropertyType::AuthenticationMethod, opt_str(&self.authentication_method));
        proof {
            acc = enc_opt(prop_text(PropertyType::AuthenticationMethod, v.authentication_method));
        }
        let _ = put_prop_binary(data, PropertyType::AuthenticationData, &self.authentication_data);
        proof {
            let e = enc_opt(prop_binary(PropertyType::AuthenticationData, v.authentication_data));
            lemma_append_assoc(d0, acc, e);
            acc = acc + e;
        }
        let _ = put_prop_text(data, PropertyType::ReasonString, opt_str(&self.reason_string));
        proof {
            let e = enc_opt(prop_text(PropertyType::ReasonString, v.reason_string));
            lemma_append_assoc(d0, acc, e);
            acc = acc + e;
        }
        let _ = put_user_props(data, &self.user_properties);
        proof {
            lemma_append_assoc(d0, acc, enc_users(v.user_properties));
        }
        Ok(())
    }
}

/// The properties of an AUTH, read back where they were written, are the
/// properties written.
#[verifier::rlimit(40)]
pub proof fn lemma_dec_enc_auth_properties(s: Seq<u8>, i: int, p: AuthPropertiesView)
    requires
        p.wf(),
        p.enc_body().len() <= VARU32_MAX,
        has_at(s, i, enc_section(p.enc_body())),
    ensures
        AuthPropertiesView::dec(s, i) == Ok::<(AuthPropertiesView, int), Error>(
            (p, i + enc_section(p.enc_body()).len()),
        ),
        dec_opt_section(PropCtx::Auth, s, i) == Ok::<(Option<PropsView>, int), Error>(
            (
                if p.enc_body().len() == 0 {
                    None
                } else {
                    Some(p.to_bag())
                },
                i + enc_section(p.enc_body()).len(),
            ),
        ),
{
    reveal(AuthPropertiesView::enc_body);
    let ctx = PropCtx::Auth;
    let body = p.enc_body();
    lemma_section_frame(s, i, body);
    let j = i + varu32_len(body.len() as u32);
    let t = s.subrange(0, j + body.len());
    let bag = p.to_bag();
    let o1 = prop_text(PropertyType::AuthenticationMethod, p.authentication_method);
    let o2 = prop_binary(PropertyType::AuthenticationData, p.authentication_data);
    let o3 = prop_text(PropertyType::ReasonString, p.reason_string);
    let a1 = enc_opt(o1);
    let a2 = a1 + enc_opt(o2);
    let a3 = a2 + enc_opt(o3);
    lemma_has_at_split(t, j, a3, enc_users(p.user_properties));
    lemma_has_at_split(t, j, a2, enc_opt(o3));
    lemma_has_at_split(t, j, a1, enc_opt(o2));
    let b0 = PropsView::empty();
    lemma_step_authentication_method(ctx, t, j, b0, p.authentication_method);
    let b1 = PropsView { authentication_method: p.authentication_method, ..b0 };
    lemma_step_authentication_data(ctx, t, j + a1.len(), b1, p.authentication_data);
    let b2 = PropsView { authentication_data: p.authentication_data, ..b1 };
    lemma_step_reason_string(ctx, t, j + a2.len(), b2, p.reason_string);
    let b3 = PropsView { reason_string: p.reason_string, ..b2 };
    lemma_dec_props_users(ctx, t, j + a3.len(), b3, p.user_properties);
    assert(b3.user_properties + p.user_properties =~= p.user_properties);
    assert(AuthPropertiesView::from_bag(bag) == p);
}

/// Properties of which there is at least one take at least one byte.
pub proof fn lemma_auth_props_nonempty(p: AuthPropertiesView)
    requires
        !p.is_empty(),
    ensures
        p.enc_body().len() >= 1,
{
    reveal(AuthPropertiesView::enc_body);
    if p.user_properties.len() > 0 {
        lemma_users_nonempty(p.user_properties);
    }
}

/// The properties that a valid section holds are well-formed and take,
/// written again, no more bytes than the section's properties.
pub proof fn lemma_auth_from_bag(bag: PropsView)
    requires
        bag.valid_for(PropCtx::Auth),
    ensures
        AuthPropertiesView::from_bag(bag).wf(),
        0 <= AuthPropertiesView::from_bag(bag).enc_body().len() == bag.size(),
        AuthPropertiesView::from_bag(bag).is_empty() == bag.is_empty(),
{
    reveal(AuthPropertiesView::enc_body);
}

/// The reason codes that an AUTH can carry.
pub open spec fn auth_code_valid(c: u8) -> bool {
    c == 0x00 || c == 0x18 || c == 0x19
}

/// AUTH packet.
#[derive(Clone, Eq, PartialEq, Debug)]
pub struct Auth {
    /// The reason code; 0 is "success".
    pub code: u8,
    pub properties: Option<AuthProperties>,
}

/// An AUTH, with text as its bytes.
pub ghost struct AuthView {
    pub code: u8,
    pub properties: Option<AuthPropertiesView>,
}

impl View for Auth {
    type V = AuthView;

    open spec fn view(&self) -> AuthView {
        AuthView { code: self.code, properties: opt_auth_props_view(self.properties) }
    }
}

impl AuthView {
    /// The bytes of the properties, without the length of their section.
    pub open spec fn props_body(self) -> Seq<u8> {
        match self.properties {
            Some(p) => p.enc_body(),
            None => Seq::empty(),
        }
    }

    /// Everything behind the fixed header: reason code and properties section.
    pub open spec fn body(self) -> Seq<u8> {
        enc_u8(self.code) + enc_section(self.props_body())
    }

    pub open spec fn header(self) -> FixedHeader {
        FixedHeader {
            byte1: first_byte(PacketType::Auth, 0),
            remaining_len: VarU32(self.body().len() as u32),
        }
    }

    /// The rules that an AUTH keeps before it is written and after it was
    /// read: its reason code is one that an AUTH can carry, else it is
    /// malformed; its properties keep the rules on single values, else it is a
    /// protocol error.
    pub open spec fn spec_validate(self) -> Result<(), Error> {
        if !auth_code_valid(self.code) {
            Err(malformed())
        } else if self.properties matches Some(p) && p.spec_validate() is Err {
            Err(protocol_error())
        } else {
            Ok(())
        }
    }

    /// The properties can be written.
    pub open spec fn fits(self) -> bool {
        self.properties matches Some(p) ==> p.fits() && p.enc_body().len() <= VARU32_MAX
    }

    /// The bytes of the packet, or why it cannot be written.
    pub open spec fn spec_encode(self) -> Result<Seq<u8>, Error> {
        match self.spec_validate() {
            Err(e) => Err(e),
            Ok(()) => if !self.fits() || self.body().len() > VARU32_MAX {
                Err(malformed())
            } else {
                Ok(self.header().enc() + self.body())
            },
        }
    }

    /// The AUTH that stands at position `i`, and the position behind what was
    /// read of it.
    ///
    /// The fixed header is valid and announces an AUTH. With a remaining
    /// length of 0 the packet ends there, and its reason code is 0; with a
    /// remaining length of 1 it ends behind the reason code; otherwise a
    /// properties section follows, and one of length 0 counts as absent.
    #[verifier::opaque]
    pub open spec fn dec(s: Seq<u8>, i: int) -> Result<(AuthView, int), Error> {
        match FixedHeader::dec(s, i) {
            Err(e) => Err(e),
            Ok((fh, n0)) => match fh.spec_validate() {
                Err(e) => Err(e),
                Ok(()) => if fh.spec_packet_type() != Ok::<PacketType, Error>(PacketType::Auth) {
                    Err(malformed())
                } else if fh.remaining_len.0 == 0 {
                    Ok((AuthView { code: 0, properties: None }, n0))
                } else {
                    match dec_u8(s, n0) {
                        Err(e) => Err(e),
                        Ok((code, n1)) => if !auth_code_valid(code) {
                            Err(malformed())
                        } else if fh.remaining_len.0 == 1 {
                            Ok((AuthView { code, properties: None }, n1))
                        } else {
                            match dec_opt_section(PropCtx::Auth, s, n1) {
                                Err(e) => Err(e),
                                Ok((bag, n2)) => Ok(
                                    (
                                        AuthView { code, properties: opt_auth_from_bag(bag) },
                                        n2,
                                    ),
                                ),
                            }
                        },
                    }
                },
            },
        }
    }

    /// The AUTH reads back as itself: its properties, where there are any, are
    /// well-formed and not empty.
    pub open spec fn canonical(self) -> bool {
        self.properties matches Some(p) ==> p.wf() && !p.is_empty()
    }
}

/// Whether `c` is a reason code that an AUTH can carry.
pub fn is_auth_code(c: u8) -> (b: bool)
    ensures
        b == auth_code_valid(c),
{
    c == 0x00 || c == 0x18 || c == 0x19
}

impl Auth {
    /// Holds the packet to the rules of an AUTH.
    pub fn validate(&self) -> (res: Result<(), Error>)
        ensures
            res == self@.spec_validate(),
    {
        if !is_auth_code(self.code) {
            return Err(Error::malformed());
        }
        match &self.properties {
            Some(p) => match p.validate() {
                Err(_) => Err(Error::protocol_error()),
                Ok(()) => Ok(()),
            },
            None => Ok(()),
        }
    }

    /// Reads an AUTH from the start of `stream`; returns it with the number
    /// of bytes read.
    pub fn decode(stream: &[u8]) -> (res: Result<(Auth, usize), Error>)
        ensures
            agrees_view(res, AuthView::dec(stream@, 0)),
    {
        reveal(AuthView::dec);
        let (fh, n0) = match FixedHeader::decode(stream, 0) {
            Err(e) => {
                return Err(e);
            },
            Ok(x) => x,
        };
        match fh.validate() {
            Err(e) => {
                return Err(e);
            },
            Ok(()) => {},
        }
        match PacketType::try_from_u8(fh.byte1 / 16) {
            Ok(PacketType::Auth) => {},
            _ => {
                return Err(Error::malformed());
            },
        }
        if fh.remaining_len.0 == 0 {
            return Ok((Auth { code: 0, properties: None }, n0));
        }
        let (code, n1) = match decode_u8(stream, n0) {
            Err(e) => {
                return Err(e);
            },
            Ok(x) => x,
        };
        if !is_auth_code(code) {
            return Err(Error::malformed());
        }
        if fh.remaining_len.0 == 1 {
            return Ok((Auth { code, properties: None }, n1));
        }
        let (bag, n2) = match PropBag::decode_opt(PropCtx::Auth, stream, n1) {
            Err(e) => {
                return Err(e);
            },
            Ok(x) => x,
        };
        let properties = match bag {
            Some(b) => Some(AuthProperties::from_bag(b)),
            None => None,
        };
        Ok((Auth { code, properties }, n2))
    }

    /// The bytes of the packet: fixed header, reason code and properties
    /// section, always in this long form. The packet is first held to the rules
    /// of `validate`; a value that is too long to be written and a packet
    /// longer than a variable-byte integer can say are malformed.
    pub fn encode(&self) -> (res: Result<Vec<u8>, Error>)
        ensures
            match res {
                Ok(v) => self@.spec_encode() == Ok::<Seq<u8>, Error>(v@),
                Err(e) => self@.spec_encode() == Err::<Seq<u8>, Error>(e),
            },
    {
        match self.validate() {
            Err(e) => {
                return Err(e);
            },
            Ok(()) => {},
        }
        let mut props: Vec<u8> = Vec::new();
        match &self.properties {
            Some(p) => match p.encode_body(&mut props) {
                Err(e) => {
                    return Err(e);
                },
                Ok(()) => {},
            },
            None => {},
        }
        assert(props@ =~= self@.props_body());
        let section = match wrap_section(props) {
            Err(e) => {
                return Err(e);
            },
            Ok(s) => s,
        };
        let mut data: Vec<u8> = Vec::new();
        put_u8(&mut data, self.code);
        put_raw(&mut data, section.as_slice());
        assert(data@ =~= self@.body());
        if data.len() > VARU32_MAX as usize {
            return Err(Error::malformed());
        }
        let fh = match FixedHeader::new(PacketType::Auth, VarU32(data.len() as u32)) {
            Err(e) => {
                return Err(e);
            },
            Ok(fh) => fh,
        };
        let mut out: Vec<u8> = Vec::new();
        let _ = fh.encode_into(&mut out);
        put_raw(&mut out, data.as_slice());
        assert(out@ =~= self@.header().enc() + self@.body());
        Ok(out)
    }
}

/// Reading is the inverse of writing: an AUTH that `encode` accepts and
/// that is canonical is what `decode` reads from the bytes that `encode` gave,
/// and all of those bytes are read.
#[verifier::rlimit(40)]
pub proof fn law_auth_decode_encode(v: AuthView)
    requires
        v.spec_encode() is Ok,
        v.canonical(),
    ensures
        AuthView::dec(v.spec_encode()->Ok_0, 0) == Ok::<(AuthView, int), Error>(
            (v, v.spec_encode()->Ok_0.len() as int),
        ),
{
    reveal(AuthView::dec);
    let s = v.spec_encode()->Ok_0;
    let fh = v.header();
    let section = enc_section(v.props_body());
    lemma_has_at_start(section, Seq::<u8>::empty());
    assert(section + Seq::<u8>::empty() =~= section);
    lemma_section_frame(section, 0, v.props_body());
    lemma_has_at_start(fh.enc(), v.body());
    lemma_dec_enc_fixed_header(s, 0, fh);
    lemma_first_byte(PacketType::Auth);
    let n0 = fh.enc().len() as int;
    lemma_has_at_split(s, n0, enc_u8(v.code), section);
    lemma_dec_enc_u8(s, n0, v.code);
    match v.properties {
        Some(p) => {
            lemma_dec_enc_auth_properties(s, n0 + 1, p);
            lemma_auth_props_nonempty(p);
        },
        None => {
            lemma_section_frame(s, n0 + 1, Seq::<u8>::empty());
        },
    }
}

/// Writing is the inverse of reading, up to the form of what was read: an
/// AUTH that `decode` read from any bytes is canonical, is accepted by
/// `encode` unless its properties are too long for a packet, and is read back
/// from what `encode` gives.
#[verifier::rlimit(40)]
pub proof fn law_auth_encode_decode(b: Seq<u8>)
    requires
        AuthView::dec(b, 0) is Ok,
        AuthView::dec(b, 0)->Ok_0.0.body().len() <= VARU32_MAX,
    ensures
        ({
            let v = AuthView::dec(b, 0)->Ok_0.0;
            &&& v.canonical()
            &&& v.spec_encode() is Ok
            &&& AuthView::dec(v.spec_encode()->Ok_0, 0) == Ok::<(AuthView, int), Error>(
                (v, v.spec_encode()->Ok_0.len() as int),
            )
        }),
{
    reveal(AuthView::dec);
    let v = AuthView::dec(b, 0)->Ok_0.0;
    let (fh, n0) = FixedHeader::dec(b, 0)->Ok_0;
    if fh.remaining_len.0 >= 2 {
        lemma_dec_section_valid(PropCtx::Auth, b, n0 + 1);
        match dec_opt_section(PropCtx::Auth, b, n0 + 1)->Ok_0.0 {
            Some(bag) => {
                lemma_auth_from_bag(bag);
            },
            None => {},
        }
    }
    law_auth_decode_encode(v);
}

} // verus!
