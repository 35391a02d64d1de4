//! The UNSUBSCRIBE packet.

use vstd::prelude::*;
use vstd::utf8::*;
use vstd::slice::*;
use crate::error::{Error, malformed, protocol_error};
use crate::wire::{
    agrees_view, dec_string, dec_u16, decode_string, decode_u16, enc_bytes, enc_u16, has_at,
    lemma_append_assoc, lemma_dec_enc_bytes, lemma_dec_enc_string, lemma_dec_enc_u16,
    lemma_dec_varu32_bounds, lemma_enc_dec_bytes, lemma_has_at_split, lemma_has_at_start, put_raw,
    put_string, put_u16, varu32_len, FIELD_MAX, VARU32_MAX,
};
use crate::v5::{
    lemma_dec_enc_fixed_header, lemma_first_byte, user_props_view, FixedHeader, PacketType,
    TopicFilter, UserProperty, VarU32,
};
use crate::v5::connect::{check_users_fit, lemma_users_nonempty};
use crate::v5::property::{
    dec_opt_section, dec_section, enc_section, enc_users, lemma_dec_props_users,
    lemma_dec_section_valid, lemma_section_frame, put_user_props, section_size, users_fit, users_wf,
    PropBag, PropCtx, PropsView,
};
use crate::v5::pubaclc::wrap_section;

verus! {

/// Collection of MQTT properties allowed in an UNSUBSCRIBE packet.
#[derive(Clone, Eq, PartialEq, Debug)]
pub struct UnSubscribeProperties {
    pub user_properties: Vec<UserProperty>,
}

/// The properties of an UNSUBSCRIBE, with text as its bytes.
pub ghost struct UnSubscribePropertiesView {
    pub user_properties: Seq<(Seq<u8>, Seq<u8>)>,
}

impl View for UnSubscribeProperties {
    type V = UnSubscribePropertiesView;

    open spec fn view(&self) -> UnSubscribePropertiesView {
        UnSubscribePropertiesView {
            user_properties: user_props_view(self.user_properties@),
        }
    }
}

impl UnSubscribePropertiesView {
    pub open spec fn from_bag(bag: PropsView) -> UnSubscribePropertiesView {
        UnSubscribePropertiesView {
            user_properties: bag.user_properties,
        }
    }

    pub open spec fn to_bag(self) -> PropsView {
        PropsView {
            user_properties: self.user_properties,
            ..PropsView::empty()
        }
    }

    pub open spec fn is_empty(self) -> bool {
        &&& self.user_properties.len() == 0
    }

    /// Every value is short enough to be written.
    pub open spec fn fits(self) -> bool {
        &&& users_fit(self.user_properties)
    }

    /// There is no rule on single values.
    pub open spec fn spec_validate(self) -> Result<(), Error> {
        Ok(())
    }

    /// Every value keeps the rules, can be written, and is UTF-8 where it is
    /// text.
    pub open spec fn wf(self) -> bool {
        &&& self.spec_validate() is Ok
        &&& self.fits()
        &&& users_wf(self.user_properties)
    }

    /// The properties one behind the other, in the order of the fields, user
    /// properties last.
    #[verifier::opaque]
    pub open spec fn enc_body(self) -> Seq<u8> {
        enc_users(self.user_properties)
    }

    /// The properties section read at position `i`.
    pub open spec fn dec(s: Seq<u8>, i: int) -> Result<(UnSubscribePropertiesView, int), Error> {
        match dec_section(PropCtx::UnSubscribe, s, i) {
            Err(e) => Err(e),
            Ok((bag, n)) => Ok((UnSubscribePropertiesView::from_bag(bag), n)),
        }
    }
}

/// The view of properties that may be absent.
pub open spec fn opt_unsubscribe_props_view(p: Option<UnSubscribeProperties>) -> Option<UnSubscribePropertiesView> {
    match p {
        Some(p) => Some(p@),
        None => None,
    }
}

/// The properties that a bag holds, if there is a bag.
pub open spec fn opt_unsubscribe_from_bag(b: Option<PropsView>) -> Option<UnSubscribePropertiesView> {
    match b {
        Some(b) => Some(UnSubscribePropertiesView::from_bag(b)),
        None => None,
    }
}

impl Default for UnSubscribeProperties {
    fn default() -> (p: UnSubscribeProperties)
        ensures
            p@.is_empty(),
    {
        UnSubscribeProperties {
            user_properties: Vec::new(),
        }
    }
}

impl UnSubscribeProperties {
    pub(crate) fn from_bag(bag: PropBag) -> (p: UnSubscribeProperties)
        ensures
            p@ == UnSubscribePropertiesView::from_bag(bag@),
    {
        UnSubscribeProperties {
            user_properties: bag.user_properties,
        }
    }

    /// Whether no property is set.
    pub fn is_empty(&self) -> (b: bool)
        ensures
            b == self@.is_empty(),
    {
        self.user_properties.len() == 0
    }

    /// Checks the rules on single values.
    pub fn validate(&self) -> (res: Result<(), Error>)
        ensures
            res == self@.spec_validate(),
    {
        Ok(())
    }

    /// Reads the properties section that starts at `off`.
    pub fn decode(stream: &[u8], off: usize) -> (res: Result<(UnSubscribeProperties, usize), Error>)
        ensures
            agrees_view(res, UnSubscribePropertiesView::dec(stream@, off as int)),
    {
        match PropBag::decode(PropCtx::UnSubscribe, stream, off) {
            Err(e) => Err(e),
            Ok((bag, n)) => Ok((UnSubscribeProperties::from_bag(bag), n)),
        }
    }

    /// Whether every value is short enough to be written.
    pub fn check_fits(&self) -> (b: bool)
        ensures
            b == self@.fits(),
    {
        check_users_fit(&self.user_properties)
    }

    /// Appends the properties, without the length of the section.
    pub fn encode_body(&self, data: &mut Vec<u8>) -> (res: Result<(), Error>)
        ensures
            self@.fits() ==> res is Ok && final(data)@ == old(data)@ + self@.enc_body(),
            !self@.fits() ==> res == Err::<(), Error>(malformed()),
    {
        reveal(UnSubscribePropertiesView::enc_body);
        if !self.check_fits() {
            return Err(Error::malformed());
        }
        let _ = put_user_props(data, &self.user_properties);
        Ok(())
    }
}

/// The properties of an UNSUBSCRIBE, read back where they were written, are the
/// properties written.
#[verifier::rlimit(40)]
pub proof fn lemma_dec_enc_unsubscribe_properties(s: Seq<u8>, i: int, p: UnSubscribePropertiesView)
    requires
        p.wf(),
        p.enc_body().len() <= VARU32_MAX,
        has_at(s, i, enc_section(p.enc_body())),
    ensures
        UnSubscribePropertiesView::dec(s, i) == Ok::<(UnSubscribePropertiesView, int), Error>(
            (p, i + enc_section(p.enc_body()).len()),
        ),
        dec_opt_section(PropCtx::UnSubscribe, s, i) == Ok::<(Option<PropsView>, int), Error>(
            (
                if p.enc_body().len() == 0 {
                    None
                } else {
                    Some(p.to_bag())
                },
                i + enc_section(p.enc_body()).len(),
            ),
        ),
{
    reveal(UnSubscribePropertiesView::enc_body);
    let ctx = PropCtx::UnSubscribe;
    let body = p.enc_body();
    lemma_section_frame(s, i, body);
    let j = i + varu32_len(body.len() as u32);
    let t = s.subrange(0, j + body.len());
    let bag = p.to_bag();
    let b0 = PropsView::empty();
    lemma_dec_props_users(ctx, t, j, b0, p.user_properties);
    assert(b0.user_properties + p.user_properties =~= p.user_properties);
    assert(UnSubscribePropertiesView::from_bag(bag) == p);
}

/// Properties of which there is at least one take at least one byte.
pub proof fn lemma_unsubscribe_props_nonempty(p: UnSubscribePropertiesView)
    requires
        !p.is_empty(),
    ensures
        p.enc_body().len() >= 1,
{
    reveal(UnSubscribePropertiesView::enc_body);
    if p.user_properties.len() > 0 {
        lemma_users_nonempty(p.user_properties);
    }
}

/// The properties that a valid section holds are well-formed and take,
/// written again, no more bytes than the section's properties.
pub proof fn lemma_unsubscribe_from_bag(bag: PropsView)
    requires
        bag.valid_for(PropCtx::UnSubscribe),
    ensures
        UnSubscribePropertiesView::from_bag(bag).wf(),
        0 <= UnSubscribePropertiesView::from_bag(bag).enc_body().len() == bag.size(),
        UnSubscribePropertiesView::from_bag(bag).is_empty() == bag.is_empty(),
{
    reveal(UnSubscribePropertiesView::enc_body);
}

/// The views of topic filters, in order.
pub open spec fn topics_view(fs: Seq<TopicFilter>) -> Seq<Seq<u8>> {
    Seq::new(fs.len(), |k: int| fs[k]@)
}

/// The topic filters one behind the other.
pub open spec fn enc_topics(fs: Seq<Seq<u8>>) -> Seq<u8>
    decreases fs.len(),
{
    if fs.len() == 0 {
        Seq::empty()
    } else {
        enc_topics(fs.drop_last()) + enc_bytes(fs.last())
    }
}

/// The topic filters from position `i` to the end of `s`, read one after the
/// other and put behind `acc`.
pub open spec fn dec_topics_from(s: Seq<u8>, i: int, acc: Seq<Seq<u8>>) -> Result<
    Seq<Seq<u8>>,
    Error,
>
    decreases s.len() - i,
{
    if i >= s.len() {
        Ok(acc)
    } else {
        match dec_string(s, i) {
            Err(e) => Err(e),
            Ok((f, j)) => if i < j <= s.len() {
                dec_topics_from(s, j, acc.push(f))
            } else {
                Err(malformed())
            },
        }
    }
}

/// Every topic filter can be written.
pub open spec fn topics_fit(fs: Seq<Seq<u8>>) -> bool {
    forall|k: int| 0 <= k < fs.len() ==> (#[trigger] fs[k]).len() <= FIELD_MAX
}

/// Every topic filter can be written and is UTF-8.
pub open spec fn topics_wf(fs: Seq<Seq<u8>>) -> bool {
    forall|k: int| 0 <= k < fs.len() ==> (#[trigger] fs[k]).len() <= FIELD_MAX && valid_utf8(fs[k])
}

/// UNSUBSCRIBE packet.
#[derive(Clone, Eq, PartialEq, Debug)]
pub struct UnSubscribe {
    pub packet_id: u16,
    pub properties: Option<UnSubscribeProperties>,
    pub filters: Vec<TopicFilter>,
}

/// An UNSUBSCRIBE, with text as its bytes.
pub ghost struct UnSubscribeView {
    pub packet_id: u16,
    pub properties: Option<UnSubscribePropertiesView>,
    pub filters: Seq<Seq<u8>>,
}

impl View for UnSubscribe {
    type V = UnSubscribeView;

    open spec fn view(&self) -> UnSubscribeView {
        UnSubscribeView {
            packet_id: self.packet_id,
            properties: opt_unsubscribe_props_view(self.properties),
            filters: topics_view(self.filters@),
        }
    }
}

impl UnSubscribeView {
    /// The bytes of the properties, without the length of their section.
    pub open spec fn props_body(self) -> Seq<u8> {
        match self.properties {
            Some(p) => p.enc_body(),
            None => Seq::empty(),
        }
    }

    /// The packet identifier and the properties section.
    pub open spec fn head(self) -> Seq<u8> {
        enc_u16(self.packet_id) + enc_section(self.props_body())
    }

    /// Everything behind the fixed header.
    pub open spec fn body(self) -> Seq<u8> {
        self.head() + enc_topics(self.filters)
    }

    pub open spec fn header(self) -> FixedHeader {
        FixedHeader { byte1: 0xA2, remaining_len: VarU32(self.body().len() as u32) }
    }

    /// The rule that an UNSUBSCRIBE keeps before it is written and after it was
    /// read: it has at least one topic filter, else it is a protocol error.
    pub open spec fn spec_validate(self) -> Result<(), Error> {
        if self.filters.len() == 0 {
            Err(protocol_error())
        } else {
            Ok(())
        }
    }

    /// Every field is short enough to be written.
    pub open spec fn fits(self) -> bool {
        &&& (self.properties matches Some(p) ==> p.fits() && p.enc_body().len() <= VARU32_MAX)
        &&& topics_fit(self.filters)
    }

    /// The bytes of the packet, or why it cannot be written.
    pub open spec fn spec_encode(self) -> Result<Seq<u8>, Error> {
        match self.spec_validate() {
            Err(e) => Err(e),
            Ok(()) => if !self.fits() || self.body().len() > VARU32_MAX {
                Err(malformed())
            } else {
                Ok(self.header().enc() + self.body())
            },
        }
    }

    /// The UNSUBSCRIBE that stands at position `i`, and the position behind it.
    ///
    /// The fixed header is valid and announces an UNSUBSCRIBE, and the packet
    /// ends within `s` where the remaining length says, else it is malformed.
    /// Nothing is read past that end. The packet identifier and the properties
    /// section (absent if its length is 0) are followed by the topic filters,
    /// which fill the packet to its end. The whole is then held to the rule of
    /// `spec_validate`.
    #[verifier::opaque]
    pub open spec fn dec(s: Seq<u8>, i: int) -> Result<(UnSubscribeView, int), Error> {
        match FixedHeader::dec(s, i) {
            Err(e) => Err(e),
            Ok((fh, n0)) => match fh.spec_validate() {
                Err(e) => Err(e),
                Ok(()) => {
                    let m = n0 + fh.remaining_len.0;
                    if fh.spec_packet_type() != Ok::<PacketType, Error>(PacketType::UnSubscribe)
                        || m > s.len() {
                        Err(malformed())
                    } else {
                        Self::dec_body(s.subrange(0, m), n0)
                    }
                },
            },
        }
    }

    /// What follows the fixed header of an UNSUBSCRIBE that ends where `s`
    /// ends.
    pub open spec fn dec_body(s: Seq<u8>, n0: int) -> Result<(UnSubscribeView, int), Error> {
        match dec_u16(s, n0) {
            Err(e) => Err(e),
            Ok((packet_id, n1)) => match dec_opt_section(PropCtx::UnSubscribe, s, n1) {
                Err(e) => Err(e),
                Ok((bag, n2)) => match dec_topics_from(s, n2, Seq::empty()) {
                    Err(e) => Err(e),
                    Ok(filters) => {
                        let v = UnSubscribeView {
                            packet_id,
                            properties: opt_unsubscribe_from_bag(bag),
                            filters,
                        };
                        match v.spec_validate() {
                            Err(e) => Err(e),
                            Ok(()) => Ok((v, s.len() as int)),
                        }
                    },
                },
            },
        }
    }

    /// The UNSUBSCRIBE reads back as itself: its topic filters are UTF-8, and
    /// properties, where there are any, are well-formed and not empty.
    pub open spec fn canonical(self) -> bool {
        &&& (self.properties matches Some(p) ==> p.wf() && !p.is_empty())
        &&& topics_wf(self.filters)
    }
}

impl UnSubscribe {
    /// Holds the packet to the rule of an UNSUBSCRIBE.
    pub fn validate(&self) -> (res: Result<(), Error>)
        ensures
            res == self@.spec_validate(),
    {
        if self.filters.len() == 0 {
            Err(Error::protocol_error())
        } else {
            Ok(())
        }
    }

    /// Reads an UNSUBSCRIBE from the start of `stream`; returns it with the
    /// number of bytes read, which is the whole packet as its fixed header
    /// measures it.
    pub fn decode(stream: &[u8]) -> (res: Result<(UnSubscribe, usize), Error>)
        ensures
            agrees_view(res, UnSubscribeView::dec(stream@, 0)),
    {
        reveal(UnSubscribeView::dec);
        let (fh, n0) = match FixedHeader::decode(stream, 0) {
            Err(e) => {
                return Err(e);
            },
            Ok(x) => x,
        };
        match fh.validate() {
            Err(e) => {
                return Err(e);
            },
            Ok(()) => {},
        }
        let is_kind = match PacketType::try_from_u8(fh.byte1 / 16) {
            Ok(PacketType::UnSubscribe) => true,
            _ => false,
        };
        let remaining: usize = fh.remaining_len.0 as usize;
        if !is_kind || remaining > stream.len() - n0 {
            return Err(Error::malformed());
        }
        let m: usize = n0 + remaining;
        let frame = slice_subrange(stream, 0, m);
        let (packet_id, n1) = match decode_u16(frame, n0) {
            Err(e) => {
                return Err(e);
            },
            Ok(x) => x,
        };
        let (bag, n2) = match PropBag::decode_opt(PropCtx::UnSubscribe, frame, n1) {
            Err(e) => {
                return Err(e);
            },
            Ok(x) => x,
        };
        let properties = match bag {
            Some(b) => Some(UnSubscribeProperties::from_bag(b)),
            None => None,
        };
        let mut filters: Vec<TopicFilter> = Vec::new();
        let mut t: usize = n2;
        assert(topics_view(filters@) =~= Seq::empty());
        while t < m
            invariant
                n2 <= t <= m,
                m == frame@.len(),
                dec_topics_from(frame@, n2 as int, Seq::empty()) == dec_topics_from(
                    frame@,
                    t as int,
                    topics_view(filters@),
                ),
                UnSubscribeView::dec(stream@, 0) == match dec_topics_from(
                    frame@,
                    n2 as int,
                    Seq::empty(),
                ) {
                    Err(e) => Err::<(UnSubscribeView, int), Error>(e),
                    Ok(fs) => {
                        let v = UnSubscribeView {
                            packet_id,
                            properties: opt_unsubscribe_props_view(properties),
                            filters: fs,
                        };
                        match v.spec_validate() {
                            Err(e) => Err::<(UnSubscribeView, int), Error>(e),
                            Ok(()) => Ok::<(UnSubscribeView, int), Error>((v, m as int)),
                        }
                    },
                },
            decreases m - t,
        {
            let (filter, j) = match decode_string(frame, t) {
                Err(e) => {
                    return Err(e);
                },
                Ok(x) => x,
            };
            let ghost prev = topics_view(filters@);
            let ghost fv = crate::wire::str_bytes(filter@);
            filters.push(TopicFilter(filter));
            assert(topics_view(filters@) =~= prev.push(fv));
            t = j;
        }
        let val = UnSubscribe { packet_id, properties, filters };
        match val.validate() {
            Err(e) => Err(e),
            Ok(()) => Ok((val, m)),
        }
    }

    /// The bytes of the packet: fixed header, packet identifier, properties
    /// section and topic filters. The packet is first held to the rule of
    /// `validate`; a field that is too long to be written and a packet longer
    /// than a variable-byte integer can say are malformed.
    pub fn encode(&self) -> (res: Result<Vec<u8>, Error>)
        ensures
            match res {
                Ok(v) => self@.spec_encode() == Ok::<Seq<u8>, Error>(v@),
                Err(e) => self@.spec_encode() == Err::<Seq<u8>, Error>(e),
            },
    {
        match self.validate() {
            Err(e) => {
                return Err(e);
            },
            Ok(()) => {},
        }
        let mut props: Vec<u8> = Vec::new();
        match &self.properties {
            Some(p) => match p.encode_body(&mut props) {
                Err(e) => {
                    return Err(e);
                },
                Ok(()) => {},
            },
            None => {},
        }
        assert(props@ =~= self@.props_body());
        let section = match wrap_section(props) {
            Err(e) => {
                return Err(e);
            },
            Ok(s) => s,
        };
        let mut data: Vec<u8> = Vec::new();
        put_u16(&mut data, self.packet_id);
        put_raw(&mut data, section.as_slice());
        assert(data@ =~= self@.head());
        let ghost view = self@.filters;
        let mut k: usize = 0;
        while k < self.filters.len()
            invariant
                k <= self.filters@.len(),
                view == topics_view(self.filters@),
                view == self@.filters,
                self@.spec_validate() is Ok,
                data@ == self@.head() + enc_topics(view.take(k as int)),
                topics_fit(view.take(k as int)),
            decreases self.filters@.len() - k,
        {
            match put_string(&mut data, self.filters[k].0.as_str()) {
                Err(e) => {
                    assert(view[k as int].len() > FIELD_MAX);
                    return Err(e);
                },
                Ok(()) => {},
            }
            proof {
                let next = view.take(k + 1);
                assert(next.drop_last() =~= view.take(k as int));
                assert(next.last() == view[k as int]);
                lemma_append_assoc(
                    self@.head(),
                    enc_topics(view.take(k as int)),
                    enc_bytes(view[k as int]),
                );
                assert forall|j: int| 0 <= j < next.len() implies (#[trigger] next[j]).len()
                    <= FIELD_MAX by {
                    if j < k {
                        assert(view.take(k as int)[j] == next[j]);
                    }
                }
            }
            k += 1;
        }
        assert(view.take(self.filters@.len() as int) =~= view);
        if data.len() > VARU32_MAX as usize {
            return Err(Error::malformed());
        }
        let fh = match FixedHeader::new(PacketType::UnSubscribe, VarU32(data.len() as u32)) {
            Err(e) => {
                return Err(e);
            },
            Ok(fh) => fh,
        };
        let mut out: Vec<u8> = Vec::new();
        let _ = fh.encode_into(&mut out);
        put_raw(&mut out, data.as_slice());
        assert(out@ =~= self@.header().enc() + self@.body());
        Ok(out)
    }
}

/// Reading topic filters passes over topic filters that stand at `i`, and
/// keeps them in their order.
pub proof fn lemma_dec_topics(s: Seq<u8>, i: int, acc: Seq<Seq<u8>>, fs: Seq<Seq<u8>>)
    requires
        topics_wf(fs),
        has_at(s, i, enc_topics(fs)),
    ensures
        dec_topics_from(s, i, acc) == dec_topics_from(s, i + enc_topics(fs).len(), acc + fs),
    decreases fs.len(),
{
    if fs.len() == 0 {
        assert(acc + fs =~= acc);
    } else {
        let front = fs.drop_last();
        let f = fs.last();
        lemma_has_at_split(s, i, enc_topics(front), enc_bytes(f));
        assert forall|k: int| 0 <= k < front.len() implies (#[trigger] front[k]).len() <= FIELD_MAX
            && valid_utf8(front[k]) by {
            assert(front[k] == fs[k]);
        }
        lemma_dec_topics(s, i, acc, front);
        assert(f == fs[fs.len() - 1]);
        lemma_dec_enc_string(s, i + enc_topics(front).len(), f);
        lemma_dec_enc_bytes(s, i + enc_topics(front).len(), f);
        assert(acc + fs =~= (acc + front).push(f));
    }
}

/// Topic filters that were read are well-formed, and written again they take
/// exactly the bytes that were read.
pub proof fn lemma_dec_topics_wf(s: Seq<u8>, i: int, acc: Seq<Seq<u8>>)
    requires
        0 <= i,
        topics_wf(acc),
        dec_topics_from(s, i, acc) is Ok,
    ensures
        topics_wf(dec_topics_from(s, i, acc)->Ok_0),
        enc_topics(dec_topics_from(s, i, acc)->Ok_0).len() == enc_topics(acc).len() + if i
            < s.len() {
            s.len() - i
        } else {
            0
        },
    decreases s.len() - i,
{
    if i < s.len() {
        lemma_enc_dec_bytes(s, i);
        let (f, j) = dec_string(s, i)->Ok_0;
        let next = acc.push(f);
        assert(next.drop_last() =~= acc);
        assert forall|k: int| 0 <= k < next.len() implies (#[trigger] next[k]).len() <= FIELD_MAX
            && valid_utf8(next[k]) by {
            if k < acc.len() {
                assert(next[k] == acc[k]);
            }
        }
        lemma_dec_topics_wf(s, j, next);
    }
}

/// What follows the fixed header of a canonical UNSUBSCRIBE, read back where
/// it was written, is what was written.
#[verifier::rlimit(40)]
pub proof fn lemma_dec_enc_unsubscribe_body(s: Seq<u8>, n0: int, v: UnSubscribeView)
    requires
        v.spec_validate() is Ok,
        v.fits(),
        v.canonical(),
        has_at(s, n0, v.body()),
        n0 + v.body().len() == s.len(),
    ensures
        UnSubscribeView::dec_body(s, n0) == Ok::<(UnSubscribeView, int), Error>(
            (v, s.len() as int),
        ),
{
    let e1 = enc_u16(v.packet_id);
    let e2 = enc_section(v.props_body());
    lemma_has_at_split(s, n0, v.head(), enc_topics(v.filters));
    lemma_has_at_split(s, n0, e1, e2);
    lemma_dec_enc_u16(s, n0, v.packet_id);
    let n1 = n0 + 2;
    let n2 = n1 + e2.len();
    assert(dec_opt_section(PropCtx::UnSubscribe, s, n1) matches Ok((bag, n))
        && opt_unsubscribe_from_bag(bag) == v.properties && n == n2) by {
        match v.properties {
            Some(p) => {
                lemma_dec_enc_unsubscribe_properties(s, n1, p);
                lemma_unsubscribe_props_nonempty(p);
            },
            None => {
                lemma_section_frame(s, n1, Seq::<u8>::empty());
            },
        }
    }
    lemma_dec_topics(s, n2, Seq::empty(), v.filters);
    assert(Seq::<Seq<u8>>::empty() + v.filters =~= v.filters);
}

/// Reading is the inverse of writing: an UNSUBSCRIBE that `encode` accepts and
/// that is canonical is what `decode` reads from the bytes that `encode` gave,
/// and all of those bytes are read.
#[verifier::rlimit(40)]
pub proof fn law_unsubscribe_decode_encode(v: UnSubscribeView)
    requires
        v.spec_encode() is Ok,
        v.canonical(),
    ensures
        UnSubscribeView::dec(v.spec_encode()->Ok_0, 0) == Ok::<(UnSubscribeView, int), Error>(
            (v, v.spec_encode()->Ok_0.len() as int),
        ),
{
    reveal(UnSubscribeView::dec);
    let s = v.spec_encode()->Ok_0;
    let fh = v.header();
    lemma_has_at_start(fh.enc(), v.body());
    lemma_dec_enc_fixed_header(s, 0, fh);
    lemma_first_byte(PacketType::UnSubscribe);
    let n0 = fh.enc().len() as int;
    let m = n0 + fh.remaining_len.0;
    assert(m == s.len());
    assert(s.subrange(0, m) =~= s);
    lemma_dec_enc_unsubscribe_body(s, n0, v);
}

/// What was read behind the fixed header of an UNSUBSCRIBE is canonical and
/// can be written, in no more bytes than were read.
#[verifier::rlimit(40)]
pub proof fn lemma_unsubscribe_body_canonical(t: Seq<u8>, n0: int)
    requires
        0 <= n0,
        UnSubscribeView::dec_body(t, n0) is Ok,
    ensures
        ({
            let v = UnSubscribeView::dec_body(t, n0)->Ok_0.0;
            &&& v.spec_validate() is Ok
            &&& v.fits()
            &&& v.canonical()
            &&& v.body().len() <= t.len() - n0
        }),
{
    let v = UnSubscribeView::dec_body(t, n0)->Ok_0.0;
    let n1 = n0 + 2;
    lemma_dec_section_valid(PropCtx::UnSubscribe, t, n1);
    let (ob, n2) = dec_opt_section(PropCtx::UnSubscribe, t, n1)->Ok_0;
    let e2 = enc_section(v.props_body());
    assert(e2.len() <= n2 - n1 && (v.properties matches Some(p) ==> p.wf() && !p.is_empty()
        && p.enc_body().len() <= VARU32_MAX)) by {
        match ob {
            Some(bag) => {
                lemma_unsubscribe_from_bag(bag);
                assert(section_size(bag.size()) <= n2 - n1);
                assert(crate::wire::enc_varu32(bag.size() as u32).len() == varu32_len(
                    bag.size() as u32,
                ));
            },
            None => {
                assert(enc_section(Seq::<u8>::empty()).len() == 1);
            },
        }
    }
    assert(enc_topics(Seq::<Seq<u8>>::empty()).len() == 0);
    lemma_dec_topics_wf(t, n2, Seq::empty());
}

/// Writing is the inverse of reading, up to the form of what was read: an
/// UNSUBSCRIBE that `decode` read from any bytes is canonical, is accepted by
/// `encode`, and is read back from what `encode` gives.
#[verifier::rlimit(40)]
pub proof fn law_unsubscribe_encode_decode(b: Seq<u8>)
    requires
        UnSubscribeView::dec(b, 0) is Ok,
    ensures
        ({
            let v = UnSubscribeView::dec(b, 0)->Ok_0.0;
            &&& v.canonical()
            &&& v.spec_encode() is Ok
            &&& UnSubscribeView::dec(v.spec_encode()->Ok_0, 0) == Ok::<
                (UnSubscribeView, int),
                Error,
            >((v, v.spec_encode()->Ok_0.len() as int))
        }),
{
    reveal(UnSubscribeView::dec);
    let v = UnSubscribeView::dec(b, 0)->Ok_0.0;
    let (fh, n0) = FixedHeader::dec(b, 0)->Ok_0;
    let m = n0 + fh.remaining_len.0;
    lemma_dec_varu32_bounds(b, 1);
    lemma_unsubscribe_body_canonical(b.subrange(0, m), n0);
    law_unsubscribe_decode_encode(v);
}

} // verus!
