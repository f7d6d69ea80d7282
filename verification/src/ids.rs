//! Identifiers: random generation (random bytes of the operating system
//! through `rand`, made into a version 4 identifier by `uuid`), text form and
//! parsing through `uuid`. Identifiers are handled as their 128 bit value.

use rand::RngCore;
pub use uuid::Error as UuidError;
use vstd::prelude::*;

verus! {

/// Error returned by the `uuid` crate when text is not an identifier
#[verifier::external_type_specification]
#[verifier::external_body]
pub struct ExUuidError(UuidError);

/// Lowercase hexadecimal digit for `d` (0 <= d < 16)
pub open spec fn hex_digit(d: int) -> char {
    if d < 10 {
        ((d + 48) as u8) as char
    } else {
        ((d - 10 + 97) as u8) as char
    }
}

/// `k`-th hexadecimal digit of `v`, counting from the most significant one
pub open spec fn nibble(v: u128, k: int) -> int {
    (v as int / vstd::arithmetic::power::pow(16, (31 - k) as nat)) % 16
}

/// Hyphenated lowercase text form of an identifier, 8-4-4-4-12 hexadecimal
/// digits: what `uuid` displays
pub open spec fn id_text(v: u128) -> Seq<char> {
    Seq::new(
        36,
        |p: int|
            if p == 8 || p == 13 || p == 18 || p == 23 {
                '-'
            } else {
                let hyphens_before: int = if p < 8 {
                    0
                } else if p < 13 {
                    1
                } else if p < 18 {
                    2
                } else if p < 23 {
                    3
                } else {
                    4
                };
                hex_digit(nibble(v, p - hyphens_before))
            },
    )
}

/// Identifier that `uuid::Uuid::parse_str` reads from `s`, if any. The crate
/// accepts several layouts (simple, hyphenated, braced, urn).
pub uninterp spec fn parsed_id(s: Seq<char>) -> Option<u128>;

/// The operating system gave no random bytes for a new identifier
#[derive(Debug, Clone, Copy, PartialEq, Eq, Structural)]
pub struct RandomIdError;

/// Fills `key` with random bytes from the operating system, through
/// `rand::rngs::OsRng::try_fill_bytes`, which reports a failure of the
/// generator as an error. Whether the generator is available, and the bytes,
/// depend on the machine: nothing is promised of them.
#[verifier::external_body]
pub(crate) fn fill_random_bytes<const N: usize>(key: &mut [u8; N]) -> (res: Result<(), rand::Error>) {
    rand::rngs::OsRng.try_fill_bytes(key)
}

/// Value of the bytes `b` read as a big-endian number
pub open spec fn big_endian_value(b: Seq<u8>) -> int {
    b.fold_left(0int, |acc: int, x: u8| acc * 256 + x)
}

/// Version 4 identifier that `uuid` builds from random bytes `b`: the high
/// half of byte 6 holds the version (4), the two high bits of byte 8 the
/// variant (`10`), and the bytes are read big-endian
pub open spec fn random_bytes_id(b: Seq<u8>) -> int {
    big_endian_value(b.update(6, (b[6] & 0x0fu8) | 0x40u8).update(8, (b[8] & 0x3fu8) | 0x80u8))
}

/// Identifier built from `bytes` by `uuid::Builder::from_random_bytes` (which
/// sets the version and variant bits), as a 128 bit value (`Uuid::as_u128`,
/// big-endian)
#[verifier::external_body]
fn id_from_random_bytes(bytes: [u8; 16]) -> (id: u128)
    ensures
        id == random_bytes_id(bytes@),
{
    uuid::Builder::from_random_bytes(bytes).into_uuid().as_u128()
}

/// `count` fresh random identifiers, one after the other; nothing when the
/// generator gives no bytes. No identifier is drawn when `count` is 0.
pub(crate) fn new_random_ids(count: usize) -> (res: Option<Vec<u128>>)
    ensures
        res matches Some(v) ==> v@.len() == count,
        count == 0 ==> res is Some,
{
    let mut v: Vec<u128> = Vec::new();
    let mut i: usize = 0;
    while i < count
        invariant
            i <= count,
            v@.len() == i,
        decreases count - i,
    {
        match new_random_id() {
            Ok(id) => v.push(id),
            Err(_) => return None,
        }
        i += 1;
    }
    Some(v)
}

/// Fresh random identifier: version 4 identifier built from random bytes
/// of the operating system. Fails when the generator gives no bytes.
pub(crate) fn new_random_id() -> (res: Result<u128, RandomIdError>)
    ensures
        res matches Ok(id) ==> exists|b: Seq<u8>| b.len() == 16 && id == random_bytes_id(b),
{
    let mut bytes = [0u8;16];
    match fill_random_bytes(&mut bytes) {
        Ok(()) => {
            let id = id_from_random_bytes(bytes);
            assert(bytes@.len() == 16);
            Ok(id)
        },
        Err(_) => Err(RandomIdError),
    }
}

/// Text of identifier `id`, as `uuid::Uuid` displays it (hyphenated,
/// lowercase hexadecimal)
#[verifier::external_body]
pub(crate) fn id_to_string(id: u128) -> (s: String)
    ensures
        s@ == id_text(id),
{
    uuid::Uuid::from_u128(id).to_string()
}

/// Identifier read by `uuid::Uuid::parse_str`. Its result is named
/// `parsed_id`; the crate documents that it reads back every layout it
/// writes, so the hyphenated text of an identifier gives that identifier.
#[verifier::external_body]
pub(crate) fn parse_id(s: &str) -> (res: Result<u128, UuidError>)
    ensures
        res is Ok <==> parsed_id(s@) is Some,
        res matches Ok(v) ==> parsed_id(s@) == Some(v),
        forall|v: u128| s@ == id_text(v) ==> (res is Ok && res->Ok_0 == v),
{
    uuid::Uuid::parse_str(s).map(|u| u.as_u128())
}

} // verus!
