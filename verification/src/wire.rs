//! The primitive fields of the MQTT wire format: fixed-width integers,
//! variable-byte integers, binary data and UTF-8 strings.
//!
//! Every field has a decoder `dec_*` that reads it at a position of a byte
//! sequence and an encoder `enc_*` that spells it out. The executable functions
//! are specified by these, and the lemmas at the end relate the two directions.

use vstd::prelude::*;
use vstd::utf8::*;
use vstd::string::*;
use vstd::slice::*;
use crate::error::{Error, malformed};

verus! {

/// The largest value that a variable-byte integer can carry.
pub const VARU32_MAX: u32 = 268_435_455;

/// The largest number of bytes that a length-prefixed field can carry.
pub const FIELD_MAX: usize = 65_535;

/// What an executable decoder returned agrees with what the format says.
pub open spec fn agrees<T>(res: Result<(T, usize), Error>, sp: Result<(T, int), Error>) -> bool {
    match res {
        Ok((v, n)) => sp == Ok::<(T, int), Error>((v, n as int)),
        Err(e) => sp == Err::<(T, int), Error>(e),
    }
}

/// As `agrees`, for a value that is compared by its view.
pub open spec fn agrees_view<T: View>(
    res: Result<(T, usize), Error>,
    sp: Result<(T::V, int), Error>,
) -> bool {
    match res {
        Ok((v, n)) => sp == Ok::<(T::V, int), Error>((v@, n as int)),
        Err(e) => sp == Err::<(T::V, int), Error>(e),
    }
}

/// The bytes `e` stand in `s` from position `i` on.
#[verifier::opaque]
pub open spec fn has_at(s: Seq<u8>, i: int, e: Seq<u8>) -> bool {
    &&& 0 <= i
    &&& i + e.len() <= s.len()
    &&& s.subrange(i, i + e.len()) == e
}

// ---------------------------------------------------------------------------
// Decoders, as functions on byte sequences
// ---------------------------------------------------------------------------

pub open spec fn dec_u8(s: Seq<u8>, i: int) -> Result<(u8, int), Error> {
    if 0 <= i && i + 1 <= s.len() {
        Ok((s[i], i + 1))
    } else {
        Err(malformed())
    }
}

/// Two bytes, most significant first.
pub open spec fn dec_u16(s: Seq<u8>, i: int) -> Result<(u16, int), Error> {
    if 0 <= i && i + 2 <= s.len() {
        Ok(((s[i] as int * 256 + s[i + 1] as int) as u16, i + 2))
    } else {
        Err(malformed())
    }
}

/// Four bytes, most significant first.
pub open spec fn dec_u32(s: Seq<u8>, i: int) -> Result<(u32, int), Error> {
    if 0 <= i && i + 4 <= s.len() {
        Ok(
            (
                (s[i] as int * 16777216 + s[i + 1] as int * 65536 + s[i + 2] as int * 256 + s[i
                    + 3] as int) as u32,
                i + 4,
            ),
        )
    } else {
        Err(malformed())
    }
}

/// A variable-byte integer: groups of seven bits, least significant first, the
/// top bit of a byte saying that another byte follows. A fifth byte is refused.
pub open spec fn dec_varu32(s: Seq<u8>, i: int) -> Result<(u32, int), Error> {
    if i < 0 || i >= s.len() {
        Err(malformed())
    } else if s[i] < 128 {
        Ok((s[i] as u32, i + 1))
    } else if i + 1 >= s.len() {
        Err(malformed())
    } else if s[i + 1] < 128 {
        Ok((((s[i] - 128) + s[i + 1] * 128) as u32, i + 2))
    } else if i + 2 >= s.len() {
        Err(malformed())
    } else if s[i + 2] < 128 {
        Ok((((s[i] - 128) + (s[i + 1] - 128) * 128 + s[i + 2] * 16384) as u32, i + 3))
    } else if i + 3 >= s.len() {
        Err(malformed())
    } else if s[i + 3] < 128 {
        Ok(
            (
                ((s[i] - 128) + (s[i + 1] - 128) * 128 + (s[i + 2] - 128) * 16384 + s[i + 3]
                    * 2097152) as u32,
                i + 4,
            ),
        )
    } else {
        Err(malformed())
    }
}

/// Binary data: a two-byte length, then that many bytes.
pub open spec fn dec_bytes(s: Seq<u8>, i: int) -> Result<(Seq<u8>, int), Error> {
    match dec_u16(s, i) {
        Err(e) => Err(e),
        Ok((len, j)) => if j + len <= s.len() {
            Ok((s.subrange(j, j + len), j + len))
        } else {
            Err(malformed())
        },
    }
}

/// A string: binary data that is well-formed UTF-8. The value is the string's
/// bytes.
pub open spec fn dec_string(s: Seq<u8>, i: int) -> Result<(Seq<u8>, int), Error> {
    match dec_bytes(s, i) {
        Err(e) => Err(e),
        Ok((b, j)) => if valid_utf8(b) {
            Ok((b, j))
        } else {
            Err(malformed())
        },
    }
}

// ---------------------------------------------------------------------------
// Encoders, as functions to byte sequences
// ---------------------------------------------------------------------------

pub open spec fn enc_u8(v: u8) -> Seq<u8> {
    seq![v]
}

pub open spec fn enc_u16(v: u16) -> Seq<u8> {
    seq![(v / 256) as u8, (v % 256) as u8]
}

pub open spec fn enc_u32(v: u32) -> Seq<u8> {
    seq![
        (v / 16777216) as u8,
        ((v / 65536) % 256) as u8,
        ((v / 256) % 256) as u8,
        (v % 256) as u8,
    ]
}

/// The shortest spelling of `v` as a variable-byte integer, for
/// `v <= VARU32_MAX`.
pub open spec fn enc_varu32(v: u32) -> Seq<u8> {
    if v < 128 {
        seq![v as u8]
    } else if v < 16384 {
        seq![(v % 128 + 128) as u8, (v / 128) as u8]
    } else if v < 2097152 {
        seq![(v % 128 + 128) as u8, ((v / 128) % 128 + 128) as u8, (v / 16384) as u8]
    } else {
        seq![
            (v % 128 + 128) as u8,
            ((v / 128) % 128 + 128) as u8,
            ((v / 16384) % 128 + 128) as u8,
            (v / 2097152) as u8,
        ]
    }
}

/// The number of bytes of `enc_varu32(v)`.
pub open spec fn varu32_len(v: u32) -> int {
    if v < 128 {
        1
    } else if v < 16384 {
        2
    } else if v < 2097152 {
        3
    } else {
        4
    }
}

/// Binary data or a string of at most `FIELD_MAX` bytes, behind its length.
pub open spec fn enc_bytes(b: Seq<u8>) -> Seq<u8> {
    enc_u16(b.len() as u16) + b
}

/// The bytes of a string.
pub open spec fn str_bytes(s: Seq<char>) -> Seq<u8> {
    encode_utf8(s)
}

// ---------------------------------------------------------------------------
// Executable decoders
// ---------------------------------------------------------------------------

pub fn decode_u8(stream: &[u8], off: usize) -> (res: Result<(u8, usize), Error>)
    ensures
        agrees(res, dec_u8(stream@, off as int)),
{
    if off < stream.len() {
        Ok((stream[off], off + 1))
    } else {
        Err(Error::malformed())
    }
}

pub fn decode_u16(stream: &[u8], off: usize) -> (res: Result<(u16, usize), Error>)
    ensures
        agrees(res, dec_u16(stream@, off as int)),
{
    if off < stream.len() && stream.len() - off >= 2 {
        let hi: u16 = stream[off] as u16;
        let lo: u16 = stream[off + 1] as u16;
        Ok((hi * 256 + lo, off + 2))
    } else {
        Err(Error::malformed())
    }
}

pub fn decode_u32(stream: &[u8], off: usize) -> (res: Result<(u32, usize), Error>)
    ensures
        agrees(res, dec_u32(stream@, off as int)),
{
    if off < stream.len() && stream.len() - off >= 4 {
        let b0: u32 = stream[off] as u32;
        let b1: u32 = stream[off + 1] as u32;
        let b2: u32 = stream[off + 2] as u32;
        let b3: u32 = stream[off + 3] as u32;
        Ok((b0 * 16777216 + b1 * 65536 + b2 * 256 + b3, off + 4))
    } else {
        Err(Error::malformed())
    }
}

pub fn decode_varu32(stream: &[u8], off: usize) -> (res: Result<(u32, usize), Error>)
    ensures
        agrees(res, dec_varu32(stream@, off as int)),
        res matches Ok((v, n)) ==> v <= VARU32_MAX && off < n <= off + 4 && n <= stream@.len(),
{
    let len: usize = stream.len();
    if off >= len {
        return Err(Error::malformed());
    }
    let b0: u32 = stream[off] as u32;
    if b0 < 128 {
        return Ok((b0, off + 1));
    }
    if len - off < 2 {
        return Err(Error::malformed());
    }
    let b1: u32 = stream[off + 1] as u32;
    if b1 < 128 {
        return Ok(((b0 - 128) + b1 * 128, off + 2));
    }
    if len - off < 3 {
        return Err(Error::malformed());
    }
    let b2: u32 = stream[off + 2] as u32;
    if b2 < 128 {
        return Ok(((b0 - 128) + (b1 - 128) * 128 + b2 * 16384, off + 3));
    }
    if len - off < 4 {
        return Err(Error::malformed());
    }
    let b3: u32 = stream[off + 3] as u32;
    if b3 < 128 {
        return Ok(((b0 - 128) + (b1 - 128) * 128 + (b2 - 128) * 16384 + b3 * 2097152, off + 4));
    }
    Err(Error::malformed())
}

/// Copies `stream[from..to]` into a vector of its own.
pub fn copy_range(stream: &[u8], from: usize, to: usize) -> (out: Vec<u8>)
    requires
        from <= to <= stream@.len(),
    ensures
        out@ == stream@.subrange(from as int, to as int),
{
    let mut out: Vec<u8> = Vec::new();
    let mut k: usize = from;
    while k < to
        invariant
            from <= k <= to <= stream@.len(),
            out@ == stream@.subrange(from as int, k as int),
        decreases to - k,
    {
        out.push(stream[k]);
        k += 1;
    }
    out
}

pub fn decode_bytes(stream: &[u8], off: usize) -> (res: Result<(Vec<u8>, usize), Error>)
    ensures
        agrees_view(res, dec_bytes(stream@, off as int)),
        res matches Ok((v, n)) ==> off + 2 + v@.len() == n && n <= stream@.len(),
{
    match decode_u16(stream, off) {
        Err(e) => Err(e),
        Ok((len, j)) => {
            if stream.len() - j >= len as usize {
                let end: usize = j + len as usize;
                Ok((copy_range(stream, j, end), end))
            } else {
                Err(Error::malformed())
            }
        },
    }
}

/// `std::str::from_utf8`, asked only whether it accepts: it does exactly when
/// the bytes are well-formed UTF-8.
#[verifier::external_body]
pub(crate) fn is_utf8(bytes: &[u8]) -> (ok: bool)
    ensures
        ok == valid_utf8(bytes@),
{
    std::str::from_utf8(bytes).is_ok()
}

/// `String::from_utf8`: it succeeds exactly when the bytes are well-formed
/// UTF-8, and the string it then returns is the one that those bytes spell.
#[verifier::external_body]
pub(crate) fn string_from_utf8(bytes: Vec<u8>) -> (res: Option<String>)
    ensures
        res is Some <==> valid_utf8(bytes@),
        res matches Some(s) ==> s@ == decode_utf8(bytes@),
{
    String::from_utf8(bytes).ok()
}

pub fn decode_string(stream: &[u8], off: usize) -> (res: Result<(String, usize), Error>)
    ensures
        match res {
            Ok((v, n)) => dec_string(stream@, off as int) == Ok::<(Seq<u8>, int), Error>(
                (str_bytes(v@), n as int),
            ),
            Err(e) => dec_string(stream@, off as int) == Err::<(Seq<u8>, int), Error>(e),
        },
        res matches Ok((v, n)) ==> off + 2 + str_bytes(v@).len() == n && n <= stream@.len(),
{
    match decode_bytes(stream, off) {
        Err(e) => Err(e),
        Ok((raw, n)) => {
            let ghost b = raw@;
            match string_from_utf8(raw) {
                None => Err(Error::malformed()),
                Some(s) => {
                    proof {
                        decode_utf8_encode_utf8(b);
                    }
                    Ok((s, n))
                },
            }
        },
    }
}

// ---------------------------------------------------------------------------
// Executable encoders: each appends one field to `data`
// ---------------------------------------------------------------------------

pub fn put_u8(data: &mut Vec<u8>, v: u8)
    ensures
        final(data)@ == old(data)@ + enc_u8(v),
{
    data.push(v);
}

pub fn put_u16(data: &mut Vec<u8>, v: u16)
    ensures
        final(data)@ == old(data)@ + enc_u16(v),
{
    data.push((v / 256) as u8);
    data.push((v % 256) as u8);
}

pub fn put_u32(data: &mut Vec<u8>, v: u32)
    ensures
        final(data)@ == old(data)@ + enc_u32(v),
{
    data.push((v / 16777216) as u8);
    data.push(((v / 65536) % 256) as u8);
    data.push(((v / 256) % 256) as u8);
    data.push((v % 256) as u8);
}

/// Appends `v` as a variable-byte integer; a value above `VARU32_MAX` is
/// refused and leaves `data` as it was.
pub fn put_varu32(data: &mut Vec<u8>, v: u32) -> (res: Result<(), Error>)
    ensures
        v <= VARU32_MAX ==> res is Ok && final(data)@ == old(data)@ + enc_varu32(v),
        v > VARU32_MAX ==> res == Err::<(), Error>(malformed()) && final(data)@ == old(data)@,
{
    if v > VARU32_MAX {
        return Err(Error::malformed());
    }
    if v < 128 {
        data.push(v as u8);
    } else if v < 16384 {
        data.push((v % 128 + 128) as u8);
        data.push((v / 128) as u8);
    } else if v < 2097152 {
        data.push((v % 128 + 128) as u8);
        data.push(((v / 128) % 128 + 128) as u8);
        data.push((v / 16384) as u8);
    } else {
        data.push((v % 128 + 128) as u8);
        data.push(((v / 128) % 128 + 128) as u8);
        data.push(((v / 16384) % 128 + 128) as u8);
        data.push((v / 2097152) as u8);
    }
    Ok(())
}

/// Appends the bytes of `src`.
pub fn put_raw(data: &mut Vec<u8>, src: &[u8])
    ensures
        final(data)@ == old(data)@ + src@,
{
    let mut k: usize = 0;
    while k < src.len()
        invariant
            k <= src@.len(),
            data@ == old(data)@ + src@.subrange(0, k as int),
        decreases src@.len() - k,
    {
        data.push(src[k]);
        k += 1;
    }
    assert(src@.subrange(0, src@.len() as int) == src@);
}

/// Appends `src` behind its two-byte length; more than `FIELD_MAX` bytes are
/// refused and leave `data` as it was.
pub fn put_bytes(data: &mut Vec<u8>, src: &[u8]) -> (res: Result<(), Error>)
    ensures
        src@.len() <= FIELD_MAX ==> res is Ok && final(data)@ == old(data)@ + enc_bytes(src@),
        src@.len() > FIELD_MAX ==> res == Err::<(), Error>(malformed())
            && final(data)@ == old(data)@,
{
    if src.len() > FIELD_MAX {
        return Err(Error::malformed());
    }
    put_u16(data, src.len() as u16);
    put_raw(data, src);
    Ok(())
}

/// Appends the string `src` behind the two-byte length of its UTF-8 form.
pub fn put_string(data: &mut Vec<u8>, src: &str) -> (res: Result<(), Error>)
    ensures
        str_bytes(src@).len() <= FIELD_MAX ==> res is Ok
            && final(data)@ == old(data)@ + enc_bytes(str_bytes(src@)),
        str_bytes(src@).len() > FIELD_MAX ==> res == Err::<(), Error>(malformed())
            && final(data)@ == old(data)@,
{
    put_bytes(data, src.as_bytes())
}

// ---------------------------------------------------------------------------
// Laws of the primitive fields
// ---------------------------------------------------------------------------

/// Appending is associative.
pub proof fn lemma_append_assoc(a: Seq<u8>, b: Seq<u8>, c: Seq<u8>)
    ensures
        (a + b) + c == a + (b + c),
{
    assert((a + b) + c =~= a + (b + c));
}

/// Where `a + b` stands, `a` stands, and `b` stands right behind it.
pub proof fn lemma_has_at_split(s: Seq<u8>, i: int, a: Seq<u8>, b: Seq<u8>)
    requires
        has_at(s, i, a + b),
    ensures
        has_at(s, i, a),
        has_at(s, i + a.len(), b),
{
    reveal(has_at);
    let ab = a + b;
    assert(s.subrange(i, i + a.len()) =~= a) by {
        assert forall|k: int| 0 <= k < a.len() implies s.subrange(i, i + a.len())[k] == a[k] by {
            assert(s.subrange(i, i + ab.len())[k] == ab[k]);
        }
    }
    assert(s.subrange(i + a.len(), i + a.len() + b.len()) =~= b) by {
        assert forall|k: int| 0 <= k < b.len() implies s.subrange(
            i + a.len(),
            i + a.len() + b.len(),
        )[k] == b[k] by {
            assert(s.subrange(i, i + ab.len())[a.len() + k] == ab[a.len() + k]);
        }
    }
}

/// A sequence stands at the start of itself followed by anything.
pub proof fn lemma_has_at_start(a: Seq<u8>, b: Seq<u8>)
    ensures
        has_at(a + b, 0, a),
        has_at(a + b, a.len() as int, b),
{
    reveal(has_at);
    assert((a + b).subrange(0, a.len() as int) =~= a);
    assert((a + b).subrange(a.len() as int, (a.len() + b.len()) as int) =~= b);
}

/// A byte read back where it was written is the byte that was written.
pub proof fn lemma_dec_enc_u8(s: Seq<u8>, i: int, v: u8)
    requires
        has_at(s, i, enc_u8(v)),
    ensures
        dec_u8(s, i) == Ok::<(u8, int), Error>((v, i + 1)),
{
    reveal(has_at);
    assert(s.subrange(i, i + 1)[0] == enc_u8(v)[0]);
}

/// A two-byte integer read back where it was written is the one written.
pub proof fn lemma_dec_enc_u16(s: Seq<u8>, i: int, v: u16)
    requires
        has_at(s, i, enc_u16(v)),
    ensures
        dec_u16(s, i) == Ok::<(u16, int), Error>((v, i + 2)),
{
    reveal(has_at);
    let e = enc_u16(v);
    assert(s.subrange(i, i + 2)[0] == e[0]);
    assert(s.subrange(i, i + 2)[1] == e[1]);
}

/// A four-byte integer read back where it was written is the one written.
pub proof fn lemma_dec_enc_u32(s: Seq<u8>, i: int, v: u32)
    requires
        has_at(s, i, enc_u32(v)),
    ensures
        dec_u32(s, i) == Ok::<(u32, int), Error>((v, i + 4)),
{
    reveal(has_at);
    let e = enc_u32(v);
    assert(s.subrange(i, i + 4)[0] == e[0]);
    assert(s.subrange(i, i + 4)[1] == e[1]);
    assert(s.subrange(i, i + 4)[2] == e[2]);
    assert(s.subrange(i, i + 4)[3] == e[3]);
}

/// The groups of seven bits of a value up to `VARU32_MAX` make up the value.
#[verifier::rlimit(40)]
pub proof fn lemma_varu32_groups(v: u32)
    requires
        v <= VARU32_MAX,
    ensures
        ({
            let d0 = v % 128;
            let d1 = (v / 128) % 128;
            let d2 = (v / 16384) % 128;
            let d3 = v / 2097152;
            &&& d0 + d1 * 128 + d2 * 16384 + d3 * 2097152 == v
            &&& d3 < 128
            &&& (v < 2097152 ==> d3 == 0 && d2 == v / 16384)
            &&& (v < 16384 ==> d2 == 0 && d1 == v / 128)
            &&& (v < 128 ==> d1 == 0 && d0 == v)
        }),
{
    let q1 = v / 128;
    let q2 = v / 16384;
    let q3 = v / 2097152;
    assert(q2 == q1 / 128);
    assert(q3 == q2 / 128);
    assert(v == q1 * 128 + v % 128);
    assert(q1 == q2 * 128 + q1 % 128);
    assert(q2 == q3 * 128 + q2 % 128);
}

/// Every value up to `VARU32_MAX` round-trips through its variable-byte
/// spelling, wherever that spelling stands.
#[verifier::rlimit(40)]
pub proof fn lemma_dec_enc_varu32(s: Seq<u8>, i: int, v: u32)
    requires
        v <= VARU32_MAX,
        has_at(s, i, enc_varu32(v)),
    ensures
        enc_varu32(v).len() == varu32_len(v),
        dec_varu32(s, i) == Ok::<(u32, int), Error>((v, i + varu32_len(v))),
{
    let e = enc_varu32(v);
    let n = e.len() as int;
    assert(0 <= i && i + n <= s.len() && forall|k: int| 0 <= k < n ==> s[i + k] == #[trigger] e[k])
        by {
        reveal(has_at);
        assert forall|k: int| 0 <= k < n implies s[i + k] == #[trigger] e[k] by {
            assert(s.subrange(i, i + n)[k] == e[k]);
        }
    }
    lemma_varu32_groups(v);
    let d0 = v % 128;
    let d1 = (v / 128) % 128;
    let d2 = (v / 16384) % 128;
    let d3 = v / 2097152;
    assert(s[i] == e[0]);
    if v < 128 {
        assert(s[i] == d0);
    } else if v < 16384 {
        assert(s[i + 1] == e[1]);
        assert(s[i] == d0 + 128 && s[i + 1] == d1);
    } else if v < 2097152 {
        assert(s[i + 1] == e[1]);
        assert(s[i + 2] == e[2]);
        assert(s[i] == d0 + 128 && s[i + 1] == d1 + 128 && s[i + 2] == d2);
    } else {
        assert(s[i + 1] == e[1]);
        assert(s[i + 2] == e[2]);
        assert(s[i + 3] == e[3]);
        assert(s[i] == d0 + 128 && s[i + 1] == d1 + 128 && s[i + 2] == d2 + 128 && s[i + 3]
            == d3);
    }
}

/// Binary data of at most `FIELD_MAX` bytes round-trips.
pub proof fn lemma_dec_enc_bytes(s: Seq<u8>, i: int, b: Seq<u8>)
    requires
        b.len() <= FIELD_MAX,
        has_at(s, i, enc_bytes(b)),
    ensures
        dec_bytes(s, i) == Ok::<(Seq<u8>, int), Error>((b, i + 2 + b.len())),
        enc_bytes(b).len() == 2 + b.len(),
{
    reveal(has_at);
    lemma_has_at_split(s, i, enc_u16(b.len() as u16), b);
    lemma_dec_enc_u16(s, i, b.len() as u16);
}

/// A string of at most `FIELD_MAX` bytes round-trips.
pub proof fn lemma_dec_enc_string(s: Seq<u8>, i: int, b: Seq<u8>)
    requires
        b.len() <= FIELD_MAX,
        valid_utf8(b),
        has_at(s, i, enc_bytes(b)),
    ensures
        dec_string(s, i) == Ok::<(Seq<u8>, int), Error>((b, i + 2 + b.len())),
{
    reveal(has_at);
    lemma_dec_enc_bytes(s, i, b);
}

/// A variable-byte integer that was decoded is at most `VARU32_MAX`, and took
/// one to four bytes.
pub proof fn lemma_dec_varu32_bounds(s: Seq<u8>, i: int)
    ensures
        dec_varu32(s, i) matches Ok((v, j)) ==> v <= VARU32_MAX && i < j <= i + 4 && j <= s.len()
            && 0 <= i,
{
}

/// What `dec_bytes` and `dec_string` return is short enough to be encoded
/// again, and spelling it again gives the bytes that were read.
pub proof fn lemma_enc_dec_bytes(s: Seq<u8>, i: int)
    ensures
        dec_bytes(s, i) matches Ok((b, j)) ==> b.len() <= FIELD_MAX && j == i + 2 + b.len()
            && has_at(s, i, enc_bytes(b)),
        dec_string(s, i) matches Ok((b, j)) ==> b.len() <= FIELD_MAX && j == i + 2 + b.len()
            && has_at(s, i, enc_bytes(b)) && valid_utf8(b),
{
    reveal(has_at);
    if let Ok((b, j)) = dec_bytes(s, i) {
        let len = dec_u16(s, i)->Ok_0.0;
        assert(s.subrange(i, i + 2 + b.len()) =~= enc_bytes(b));
    }
}

} // verus!
