//! Random identifiers (UUIDs) and their text forms.

use vstd::prelude::*;

verus! {

/// The lowercase hexadecimal digits.
pub open spec fn hex_digits() -> Seq<char> {
    seq!['0', '1', '2', '3', '4', '5', '6', '7', '8', '9', 'a', 'b', 'c', 'd', 'e', 'f']
}

/// The 32 lowercase hexadecimal digits of `v`, most significant first.
pub open spec fn hex32(v: u128) -> Seq<char> {
    Seq::new(32, |i: int| hex_digits()[((v >> ((31 - i) * 4) as u128) & 0xf) as int])
}

/// The hyphenated form `8-4-4-4-12` of `v`.
pub open spec fn hyphenated(v: u128) -> Seq<char> {
    let h = hex32(v);
    h.subrange(0, 8) + seq!['-'] + h.subrange(8, 12) + seq!['-'] + h.subrange(12, 16) + seq!['-']
        + h.subrange(16, 20) + seq!['-'] + h.subrange(20, 32)
}

/// The UUID that `uuid::Uuid::parse_str` reads from a text, as its 128-bit value.
pub uninterp spec fn uuid_text_value(s: Seq<char>) -> Option<u128>;

/// `uuid::Uuid::parse_str`, taken as the UUID's 128-bit value.
/// Claims: the result is a function of the text alone.
#[verifier::external_body]
fn uuid_parse(s: &str) -> (r: Option<u128>)
    ensures
        r == uuid_text_value(s@),
{
    match uuid::Uuid::parse_str(s) {
        Ok(u) => Some(u.as_u128()),
        Err(_) => None,
    }
}

/// The version field of the UUID `v` (bits 76 to 79).
pub open spec fn uuid_version(v: u128) -> u128 {
    (v >> 76u128) & 0xf
}

/// The variant field of the UUID `v` (bits 62 and 63).
pub open spec fn uuid_variant(v: u128) -> u128 {
    (v >> 62u128) & 0x3
}

/// Whether `v` is a random (version 4) UUID of the RFC 9562 variant.
pub open spec fn is_random_uuid(v: u128) -> bool {
    uuid_version(v) == 4 && uuid_variant(v) == 2
}

/// `uuid::Uuid::new_v4`, as its 128-bit value. Claims: the version field is
/// 4 and the variant field is `0b10` (the crate masks random bits with
/// `0xFFFFFFFFFFFF4FFFBFFFFFFFFFFFFFFF` and sets `0x40008000000000000000`).
/// The other 122 bits come from the random source: nothing is claimed of
/// them.
#[verifier::external_body]
fn uuid_new_v4() -> (r: u128)
    ensures
        is_random_uuid(r),
{
    uuid::Uuid::new_v4().as_u128()
}

/// The `Display` form of `uuid::Uuid::from_u128(v)`. Claims: it is the
/// lowercase hyphenated form of `v`, and `Uuid::parse_str` reads `v` back
/// from it.
#[verifier::external_body]
fn uuid_hyphenated_text(v: u128) -> (r: String)
    ensures
        r@ == hyphenated(v),
        uuid_text_value(r@) == Some(v),
{
    uuid::Uuid::from_u128(v).to_string()
}

/// The `simple()` form of `uuid::Uuid::from_u128(v)`. Claims: it is the 32
/// lowercase hexadecimal digits of `v`.
#[verifier::external_body]
fn uuid_simple_text(v: u128) -> (r: String)
    ensures
        r@ == hex32(v),
{
    uuid::Uuid::from_u128(v).simple().to_string()
}

/// A fresh random identifier (a version 4 UUID).
pub fn new_token() -> (r: u128)
    ensures
        is_random_uuid(r),
{
    uuid_new_v4()
}

/// The UUID written in `s`, if `s` is one.
pub fn parse_token(s: &str) -> (r: Option<u128>)
    ensures
        r == uuid_text_value(s@),
{
    uuid_parse(s)
}

/// The hyphenated text of the identifier `v`.
pub fn token_text(v: u128) -> (r: String)
    ensures
        r@ == hyphenated(v),
        uuid_text_value(r@) == Some(v),
{
    uuid_hyphenated_text(v)
}

/// The 32 hexadecimal digits of the identifier `v`.
pub fn token_hex(v: u128) -> (r: String)
    ensures
        r@ == hex32(v),
{
    uuid_simple_text(v)
}

/// Byte `i` (0 first) of the identifier `v`, in the order the UUID is stored.
pub open spec fn token_byte(v: u128, i: int) -> u8 {
    ((v >> ((15 - i) * 8) as u128) & 0xff) as u8
}

/// Byte `i` of the identifier `v`.
pub fn token_byte_at(v: u128, i: u32) -> (r: u8)
    requires
        i < 16,
    ensures
        r == token_byte(v, i as int),
{
    let shift: u32 = (15 - i) * 8;
    let b = (v >> shift) & 0xff;
    assert(b <= 0xff) by (bit_vector)
        requires
            b == (v >> shift) & 0xff,
    ;
    b as u8
}

} // verus!
