//! The UNSUBACK packet.

use vstd::prelude::*;
use vstd::slice::*;
use crate::error::{Error, malformed, protocol_error};
use crate::wire::{
    agrees_view, copy_range, dec_u16, decode_u16, enc_u16, has_at, lemma_dec_enc_u16,
    lemma_dec_varu32_bounds, lemma_has_at_split, lemma_has_at_start, put_raw, put_u16, VARU32_MAX,
};
use crate::v5::{
    first_byte, lemma_dec_enc_fixed_header, lemma_first_byte, FixedHeader, PacketType, VarU32,
};
use crate::v5::property::{
    dec_opt_section, enc_section, lemma_dec_section_valid, lemma_section_frame, section_size,
    PropBag, PropCtx,
};
use crate::v5::pubaclc::{
    lemma_dec_enc_properties, lemma_nonempty_body, lemma_properties_from_bag, opt_from_bag,
    opt_properties_view, wrap_section, Properties, PropertiesView,
};

verus! {

/// The reason codes that an UNSUBACK can carry.
pub open spec fn unsuback_code_valid(c: u8) -> bool {
    c == 0x00 || c == 0x11 || c == 0x80 || c == 0x83 || c == 0x87 || c == 0x8F || c == 0x91
}

/// Every reason code is one that an UNSUBACK can carry.
pub open spec fn unsuback_codes_valid(codes: Seq<u8>) -> bool {
    forall|k: int| 0 <= k < codes.len() ==> unsuback_code_valid(#[trigger] codes[k])
}

/// UNSUBACK packet.
#[derive(Clone, Eq, PartialEq, Debug)]
pub struct UnsubAck {
    pub packet_id: u16,
    pub properties: Option<Properties>,
    /// One reason code for each filter of the packet that is answered, in
    /// order.
    pub return_codes: Vec<u8>,
}

/// An UNSUBACK, with text as its bytes.
pub ghost struct UnsubAckView {
    pub packet_id: u16,
    pub properties: Option<PropertiesView>,
    pub return_codes: Seq<u8>,
}

impl View for UnsubAck {
    type V = UnsubAckView;

    open spec fn view(&self) -> UnsubAckView {
        UnsubAckView {
            packet_id: self.packet_id,
            properties: opt_properties_view(self.properties),
            return_codes: self.return_codes@,
        }
    }
}

impl UnsubAckView {
    /// The bytes of the properties, without the length of their section.
    pub open spec fn props_body(self) -> Seq<u8> {
        match self.properties {
            Some(p) => p.enc_body(),
            None => Seq::empty(),
        }
    }

    /// The packet identifier and the properties section.
    pub open spec fn head(self) -> Seq<u8> {
        enc_u16(self.packet_id) + enc_section(self.props_body())
    }

    /// Everything behind the fixed header.
    pub open spec fn body(self) -> Seq<u8> {
        self.head() + self.return_codes
    }

    pub open spec fn header(self) -> FixedHeader {
        FixedHeader {
            byte1: first_byte(PacketType::UnsubAck, 0),
            remaining_len: VarU32(self.body().len() as u32),
        }
    }

    /// The rules that an UNSUBACK keeps before it is written and after it was
    /// read: it has at least one reason code, else it is a protocol error;
    /// every reason code is one that an UNSUBACK can carry, else it is
    /// malformed.
    pub open spec fn spec_validate(self) -> Result<(), Error> {
        if self.return_codes.len() == 0 {
            Err(protocol_error())
        } else if !unsuback_codes_valid(self.return_codes) {
            Err(malformed())
        } else {
            Ok(())
        }
    }

    /// The properties can be written.
    pub open spec fn fits(self) -> bool {
        self.properties matches Some(p) ==> p.fits() && p.enc_body().len() <= VARU32_MAX
    }

    /// The bytes of the packet, or why it cannot be written.
    pub open spec fn spec_encode(self) -> Result<Seq<u8>, Error> {
        match self.spec_validate() {
            Err(e) => Err(e),
            Ok(()) => if !self.fits() || self.body().len() > VARU32_MAX {
                Err(malformed())
            } else {
                Ok(self.header().enc() + self.body())
            },
        }
    }

    /// The UNSUBACK that stands at position `i`, and the position behind it.
    ///
    /// The fixed header is valid and announces an UNSUBACK, and the packet ends
    /// within `s` where the remaining length says, else it is malformed.
    /// Nothing is read past that end. The packet identifier and the properties
    /// section (absent if its length is 0) are followed by the reason codes,
    /// which are what is left of the packet. The whole is then held to the
    /// rules of `spec_validate`.
    #[verifier::opaque]
    pub open spec fn dec(s: Seq<u8>, i: int) -> Result<(UnsubAckView, int), Error> {
        match FixedHeader::dec(s, i) {
            Err(e) => Err(e),
            Ok((fh, n0)) => match fh.spec_validate() {
                Err(e) => Err(e),
                Ok(()) => {
                    let m = n0 + fh.remaining_len.0;
                    if fh.spec_packet_type() != Ok::<PacketType, Error>(PacketType::UnsubAck) || m
                        > s.len() {
                        Err(malformed())
                    } else {
                        Self::dec_body(s.subrange(0, m), n0)
                    }
                },
            },
        }
    }

    /// What follows the fixed header of an UNSUBACK that ends where `s` ends.
    pub open spec fn dec_body(s: Seq<u8>, n0: int) -> Result<(UnsubAckView, int), Error> {
        match dec_u16(s, n0) {
            Err(e) => Err(e),
            Ok((packet_id, n1)) => match dec_opt_section(PropCtx::PubAck, s, n1) {
                Err(e) => Err(e),
                Ok((bag, n2)) => {
                    let v = UnsubAckView {
                        packet_id,
                        properties: opt_from_bag(bag),
                        return_codes: s.subrange(n2, s.len() as int),
                    };
                    match v.spec_validate() {
                        Err(e) => Err(e),
                        Ok(()) => Ok((v, s.len() as int)),
                    }
                },
            },
        }
    }

    /// The UNSUBACK reads back as itself: its properties, where there are any, are
    /// well-formed and not empty.
    pub open spec fn canonical(self) -> bool {
        self.properties matches Some(p) ==> p.wf() && !p.is_empty()
    }
}

/// Whether `c` is a reason code that an UNSUBACK can carry.
pub fn is_unsuback_code(c: u8) -> (b: bool)
    ensures
        b == unsuback_code_valid(c),
{
    c == 0x00 || c == 0x11 || c == 0x80 || c == 0x83 || c == 0x87 || c == 0x8F || c == 0x91
}

impl UnsubAck {
    /// Whether every reason code is one that an UNSUBACK can carry.
    fn check_codes(&self) -> (b: bool)
        ensures
            b == unsuback_codes_valid(self.return_codes@),
    {
        let mut k: usize = 0;
        while k < self.return_codes.len()
            invariant
                k <= self.return_codes@.len(),
                forall|j: int| 0 <= j < k ==> unsuback_code_valid(#[trigger] self.return_codes@[j]),
            decreases self.return_codes@.len() - k,
        {
            if !is_unsuback_code(self.return_codes[k]) {
                return false;
            }
            k += 1;
        }
        true
    }

    /// Holds the packet to the rules of an UNSUBACK.
    pub fn validate(&self) -> (res: Result<(), Error>)
        ensures
            res == self@.spec_validate(),
    {
        if self.return_codes.len() == 0 {
            Err(Error::protocol_error())
        } else if !self.check_codes() {
            Err(Error::malformed())
        } else {
            Ok(())
        }
    }

    /// Reads an UNSUBACK from the start of `stream`; returns it with the number
    /// of bytes read, which is the whole packet as its fixed header measures
    /// it.
    pub fn decode(stream: &[u8]) -> (res: Result<(UnsubAck, usize), Error>)
        ensures
            agrees_view(res, UnsubAckView::dec(stream@, 0)),
    {
        reveal(UnsubAckView::dec);
        let (fh, n0) = match FixedHeader::decode(stream, 0) {
            Err(e) => {
                return Err(e);
            },
            Ok(x) => x,
        };
        match fh.validate() {
            Err(e) => {
                return Err(e);
            },
            Ok(()) => {},
        }
        let is_kind = match PacketType::try_from_u8(fh.byte1 / 16) {
            Ok(PacketType::UnsubAck) => true,
            _ => false,
        };
        let remaining: usize = fh.remaining_len.0 as usize;
        if !is_kind || remaining > stream.len() - n0 {
            return Err(Error::malformed());
        }
        let m: usize = n0 + remaining;
        let frame = slice_subrange(stream, 0, m);
        let (packet_id, n1) = match decode_u16(frame, n0) {
            Err(e) => {
                return Err(e);
            },
            Ok(x) => x,
        };
        let (bag, n2) = match PropBag::decode_opt(PropCtx::PubAck, frame, n1) {
            Err(e) => {
                return Err(e);
            },
            Ok(x) => x,
        };
        let properties = match bag {
            Some(b) => Some(Properties::from_bag(b)),
            None => None,
        };
        let return_codes = copy_range(frame, n2, m);
        let val = UnsubAck { packet_id, properties, return_codes };
        match val.validate() {
            Err(e) => Err(e),
            Ok(()) => Ok((val, m)),
        }
    }

    /// The bytes of the packet: fixed header, packet identifier, properties
    /// section and reason codes. The packet is first held to the rules of
    /// `validate`; a value that is too long to be written and a packet longer
    /// than a variable-byte integer can say are malformed.
    pub fn encode(&self) -> (res: Result<Vec<u8>, Error>)
        ensures
            match res {
                Ok(v) => self@.spec_encode() == Ok::<Seq<u8>, Error>(v@),
                Err(e) => self@.spec_encode() == Err::<Seq<u8>, Error>(e),
            },
    {
        match self.validate() {
            Err(e) => {
                return Err(e);
            },
            Ok(()) => {},
        }
        let mut props: Vec<u8> = Vec::new();
        match &self.properties {
            Some(p) => match p.encode_body(&mut props) {
                Err(e) => {
                    return Err(e);
                },
                Ok(()) => {},
            },
            None => {},
        }
        assert(props@ =~= self@.props_body());
        let section = match wrap_section(props) {
            Err(e) => {
                return Err(e);
            },
            Ok(s) => s,
        };
        let mut data: Vec<u8> = Vec::new();
        put_u16(&mut data, self.packet_id);
        put_raw(&mut data, section.as_slice());
        assert(data@ =~= self@.head());
        put_raw(&mut data, self.return_codes.as_slice());
        if data.len() > VARU32_MAX as usize {
            return Err(Error::malformed());
        }
        let fh = match FixedHeader::new(PacketType::UnsubAck, VarU32(data.len() as u32)) {
            Err(e) => {
                return Err(e);
            },
            Ok(fh) => fh,
        };
        let mut out: Vec<u8> = Vec::new();
        let _ = fh.encode_into(&mut out);
        put_raw(&mut out, data.as_slice());
        assert(out@ =~= self@.header().enc() + self@.body());
        Ok(out)
    }
}

/// What follows the fixed header of a canonical UNSUBACK, read back where it was
/// written, is what was written.
#[verifier::rlimit(40)]
pub proof fn lemma_dec_enc_unsuback_body(s: Seq<u8>, n0: int, v: UnsubAckView)
    requires
        v.spec_validate() is Ok,
        v.fits(),
        v.canonical(),
        has_at(s, n0, v.body()),
        n0 + v.body().len() == s.len(),
    ensures
        UnsubAckView::dec_body(s, n0) == Ok::<(UnsubAckView, int), Error>((v, s.len() as int)),
{
    let e1 = enc_u16(v.packet_id);
    let e2 = enc_section(v.props_body());
    lemma_has_at_split(s, n0, v.head(), v.return_codes);
    lemma_has_at_split(s, n0, e1, e2);
    lemma_dec_enc_u16(s, n0, v.packet_id);
    let n1 = n0 + 2;
    let n2 = n1 + e2.len();
    assert(dec_opt_section(PropCtx::PubAck, s, n1) matches Ok((bag, n)) && opt_from_bag(bag)
        == v.properties && n == n2) by {
        match v.properties {
            Some(p) => {
                lemma_dec_enc_properties(s, n1, p);
                lemma_section_frame(s, n1, p.enc_body());
                lemma_nonempty_body(p);
            },
            None => {
                lemma_section_frame(s, n1, Seq::<u8>::empty());
            },
        }
    }
    assert(s.subrange(n2, s.len() as int) == v.return_codes) by {
        reveal(has_at);
        assert(s.subrange(n2, s.len() as int) =~= v.return_codes);
    }
}

/// Reading is the inverse of writing: an UNSUBACK that `encode` accepts and
/// that is canonical is what `decode` reads from the bytes that `encode` gave,
/// and all of those bytes are read.
#[verifier::rlimit(40)]
pub proof fn law_unsuback_decode_encode(v: UnsubAckView)
    requires
        v.spec_encode() is Ok,
        v.canonical(),
    ensures
        UnsubAckView::dec(v.spec_encode()->Ok_0, 0) == Ok::<(UnsubAckView, int), Error>(
            (v, v.spec_encode()->Ok_0.len() as int),
        ),
{
    reveal(UnsubAckView::dec);
    let s = v.spec_encode()->Ok_0;
    let fh = v.header();
    lemma_has_at_start(fh.enc(), v.body());
    lemma_dec_enc_fixed_header(s, 0, fh);
    lemma_first_byte(PacketType::UnsubAck);
    let n0 = fh.enc().len() as int;
    let m = n0 + fh.remaining_len.0;
    assert(m == s.len());
    assert(s.subrange(0, m) =~= s);
    lemma_dec_enc_unsuback_body(s, n0, v);
}

/// Writing is the inverse of reading, up to the form of what was read: an
/// UNSUBACK that `decode` read from any bytes is canonical, is accepted by
/// `encode`, and is read back from what `encode` gives.
#[verifier::rlimit(40)]
pub proof fn law_unsuback_encode_decode(b: Seq<u8>)
    requires
        UnsubAckView::dec(b, 0) is Ok,
    ensures
        ({
            let v = UnsubAckView::dec(b, 0)->Ok_0.0;
            &&& v.canonical()
            &&& v.spec_encode() is Ok
            &&& UnsubAckView::dec(v.spec_encode()->Ok_0, 0) == Ok::<(UnsubAckView, int), Error>(
                (v, v.spec_encode()->Ok_0.len() as int),
            )
        }),
{
    reveal(UnsubAckView::dec);
    let v = UnsubAckView::dec(b, 0)->Ok_0.0;
    let (fh, n0) = FixedHeader::dec(b, 0)->Ok_0;
    let m = n0 + fh.remaining_len.0;
    let t = b.subrange(0, m);
    let n1 = n0 + 2;
    lemma_dec_section_valid(PropCtx::PubAck, t, n1);
    let (ob, n2) = dec_opt_section(PropCtx::PubAck, t, n1)->Ok_0;
    match ob {
        Some(bag) => {
            lemma_properties_from_bag(bag);
            assert(section_size(bag.size()) <= n2 - n1);
        },
        None => {
            assert(enc_section(Seq::<u8>::empty()).len() == 1);
        },
    }
    assert(v.head().len() <= n2 - n0);
    assert(v.body().len() <= fh.remaining_len.0);
    lemma_dec_varu32_bounds(b, 1);
    law_unsuback_decode_encode(v);
}

} // verus!
