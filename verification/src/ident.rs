//! Universally unique identifiers, as far as the broker uses them: as the
//! number of a node, and as the name of a client that brings none.

use vstd::prelude::*;
use crate::wire::str_bytes;

verus! {

/// 16 to the power of `n`.
pub open spec fn pow16(n: nat) -> nat
    decreases n,
{
    if n == 0 {
        1
    } else {
        16 * pow16((n - 1) as nat)
    }
}

/// The `k`-th of the 32 hexadecimal digits of `v`, the most significant
/// first.
pub open spec fn hex_digit(v: u128, k: int) -> int {
    (v as int / pow16((31 - k) as nat) as int) % 16
}

/// The character that stands for the hexadecimal digit `d`, in lower case.
pub open spec fn hex_char(d: int) -> u8 {
    if d < 10 {
        (48 + d) as u8
    } else {
        (87 + d) as u8
    }
}

/// The hyphenated form of the UUID with the number `v`: its 32 hexadecimal
/// digits in lower case, in groups of 8, 4, 4, 4 and 12 with a hyphen between
/// them.
pub open spec fn hyphenated(v: u128) -> Seq<u8> {
    Seq::new(
        36,
        |i: int|
            if i == 8 || i == 13 || i == 18 || i == 23 {
                45u8
            } else if i < 8 {
                hex_char(hex_digit(v, i))
            } else if i < 13 {
                hex_char(hex_digit(v, i - 1))
            } else if i < 18 {
                hex_char(hex_digit(v, i - 2))
            } else if i < 23 {
                hex_char(hex_digit(v, i - 3))
            } else {
                hex_char(hex_digit(v, i - 4))
            },
    )
}

/// What `uuid::Uuid::parse_str` makes of a text: the number of the UUID that
/// the text spells, if it spells one.
pub uninterp spec fn uuid_of(text: Seq<char>) -> Option<u128>;

/// `uuid::Uuid::parse_str`, with the UUID as its number.
#[verifier::external_body]
pub(crate) fn parse_uuid(text: &str) -> (res: Option<u128>)
    ensures
        res == uuid_of(text@),
{
    match uuid::Uuid::parse_str(text) {
        Ok(u) => Some(u.as_u128()),
        Err(_) => None,
    }
}

/// `uuid::Uuid::new_v4`, as its number. Which UUID comes is left to chance.
#[verifier::external_body]
pub(crate) fn random_uuid() -> u128 {
    uuid::Uuid::new_v4().as_u128()
}

/// `uuid::Uuid::hyphenated`, written out: the 36 characters of the hyphenated
/// form of the UUID with the number `v`.
#[verifier::external_body]
fn hyphenate(v: u128) -> (s: String)
    ensures
        str_bytes(s@) == hyphenated(v),
{
    uuid::Uuid::from_u128(v).hyphenated().to_string()
}

/// The UUID with the number `v` as text, in its hyphenated form.
pub fn uuid_text(v: u128) -> (s: String)
    ensures
        str_bytes(s@) == hyphenated(v),
        str_bytes(s@).len() == 36,
{
    hyphenate(v)
}

} // verus!
