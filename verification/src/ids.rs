//! Identifiers. An identifier is held as the 128-bit value of a UUID
//! (most significant byte first, as `uuid::Uuid::as_u128` gives it).

use vstd::prelude::*;

verus! {

/// The lowercase hexadecimal digit of a nibble.
pub open spec fn hex_digit(n: u128) -> char {
    seq!['0', '1', '2', '3', '4', '5', '6', '7', '8', '9', 'a', 'b', 'c', 'd', 'e', 'f'][n as int]
}

/// The `k`-th of the 32 nibbles of an identifier, most significant first.
pub open spec fn uuid_nibble(id: u128, k: int) -> u128 {
    (id >> ((124 - 4 * k) as u128)) & 15u128
}

/// Position in the 32-digit form of the character at position `p` of the
/// hyphenated form (hyphens stand at 8, 13, 18 and 23).
pub open spec fn simple_position(p: int) -> int {
    if p < 8 {
        p
    } else if p < 13 {
        p - 1
    } else if p < 18 {
        p - 2
    } else if p < 23 {
        p - 3
    } else {
        p - 4
    }
}

/// The hyphenated lowercase text of an identifier, such as
/// `67e55044-10b1-426f-9247-bb680e5fe0c8`.
pub open spec fn uuid_text(id: u128) -> Seq<char> {
    Seq::new(
        36,
        |p: int|
            if p == 8 || p == 13 || p == 18 || p == 23 {
                '-'
            } else {
                hex_digit(uuid_nibble(id, simple_position(p)))
            },
    )
}

/// `uuid::Uuid::to_string` (its `Display`), on the UUID whose value is `id`.
/// The crate writes the 16 bytes most significant first as lowercase
/// hexadecimal digits, with a hyphen after the 8th, 12th, 16th and 20th digit;
/// the contract states exactly that text.
#[verifier::external_body]
pub(crate) fn uuid_to_string(id: u128) -> (text: String)
    ensures
        text@ == uuid_text(id),
{
    uuid::Uuid::from_u128(id).to_string()
}

/// `uuid::Uuid::is_nil`, on the UUID whose value is `id`: the crate compares
/// `as_u128()` with zero.
#[verifier::external_body]
pub(crate) fn uuid_is_nil(id: u128) -> (nil: bool)
    ensures
        nil == (id == 0),
{
    uuid::Uuid::from_u128(id).is_nil()
}

/// The bits that mark a version-4, RFC 4122 UUID: the version nibble is 4
/// and the two top variant bits are 10.
pub open spec fn is_v4(id: u128) -> bool {
    id & 0x0000_0000_0000_f000_c000_0000_0000_0000u128 == 0x0000_0000_0000_4000_8000_0000_0000_0000u128
}

/// `uuid::Uuid::new_v4`: a random version-4 UUID, given by its value. The
/// crate masks a random `u128` and sets the version and variant bits, so
/// those bits are stated; the other bits come from the operating system's
/// random source and are not.
#[verifier::external_body]
pub(crate) fn uuid_new_v4() -> (id: u128)
    ensures
        is_v4(id),
{
    uuid::Uuid::new_v4().as_u128()
}

} // verus!
