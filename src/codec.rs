//! Calls into outside crates: base64 text, note identifiers, the clock.
use vstd::prelude::*;
use base64::Engine;

verus! {

/// The bytes that a text in standard base64 stands for, or none when it is
/// not valid standard base64.
pub uninterp spec fn base64_decoded(s: Seq<char>) -> Option<Seq<u8>>;

/// The standard base64 text of some bytes.
pub uninterp spec fn base64_text(b: Seq<u8>) -> Seq<char>;

/// The identifier that a text stands for, or none when it is no identifier.
pub uninterp spec fn parsed_uuid(s: Seq<char>) -> Option<u128>;

/// The sixteen digits in lower case.
pub open spec fn hex_digits() -> Seq<char> {
    seq!['0', '1', '2', '3', '4', '5', '6', '7', '8', '9', 'a', 'b', 'c', 'd', 'e', 'f']
}

/// The digit at position `k` (0 to 31, most significant first) of `id`.
pub open spec fn uuid_digit(id: u128, k: int) -> char {
    hex_digits()[((id >> ((124 - 4 * k) as u128)) & 15u128) as int]
}

/// The hyphenated text of an identifier: 32 lower-case hexadecimal digits,
/// most significant first, in groups of 8, 4, 4, 4 and 12 joined by `-`.
pub open spec fn uuid_text(id: u128) -> Seq<char> {
    Seq::new(
        36,
        |i: int|
            if i == 8 || i == 13 || i == 18 || i == 23 {
                '-'
            } else if i < 8 {
                uuid_digit(id, i)
            } else if i < 13 {
                uuid_digit(id, i - 1)
            } else if i < 18 {
                uuid_digit(id, i - 2)
            } else if i < 23 {
                uuid_digit(id, i - 3)
            } else {
                uuid_digit(id, i - 4)
            },
    )
}

/// Relies on base64's `STANDARD` engine `decode`: the bytes that the text
/// stands for, or none where `decode` returns an error.
#[verifier::external_body]
pub(crate) fn decode_base64(s: &str) -> (r: Option<Vec<u8>>)
    ensures
        match r {
            Some(b) => base64_decoded(s@) == Some(b@),
            None => base64_decoded(s@).is_none(),
        },
{
    base64::engine::general_purpose::STANDARD.decode(s).ok()
}

/// Relies on base64's `STANDARD` engine `encode`, which panics only when the
/// length of the text would overflow `usize`.
#[verifier::external_body]
pub(crate) fn encode_base64(b: &[u8]) -> (r: String)
    requires
        b@.len() <= usize::MAX / 2,
    ensures
        r@ == base64_text(b@),
{
    base64::engine::general_purpose::STANDARD.encode(b)
}

/// Relies on `uuid::Uuid::parse_str` and `Uuid::as_u128`: the identifier as a
/// 128-bit number, its first byte most significant.
#[verifier::external_body]
pub(crate) fn parse_uuid(s: &str) -> (r: Option<u128>)
    ensures
        r == parsed_uuid(s@),
{
    uuid::Uuid::parse_str(s).ok().map(|u| u.as_u128())
}

/// Relies on `uuid::Uuid::from_u128` and the `Display` of `Uuid`, which
/// writes the hyphenated lower-case form.
#[verifier::external_body]
pub(crate) fn uuid_string(id: u128) -> (r: String)
    ensures
        r@ == uuid_text(id),
{
    uuid::Uuid::from_u128(id).to_string()
}

/// Relies on `chrono::Utc::now` and `timestamp_millis`: the time now, in
/// milliseconds since the Unix epoch. Nothing is known of its value.
#[verifier::external_body]
pub(crate) fn now_millis() -> (r: i64) {
    chrono::Utc::now().timestamp_millis()
}

} // verus!
