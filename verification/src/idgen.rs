//! Generation of short, URL-safe identifiers.
//!
//! An identifier is a string of exactly `ID_LENGTH` characters, each drawn
//! from the URL-safe alphabet (ASCII letters, digits, `_` and `-`).
//! Generation is random: it promises the shape of the result, never
//! uniqueness, which the store enforces.

use vstd::prelude::*;

verus! {

/// Length, in characters, of every generated identifier.
pub const ID_LENGTH: usize = 6;

/// A character of the URL-safe alphabet: an ASCII letter, a digit, `_` or `-`.
pub open spec fn is_url_safe_char(c: char) -> bool {
    ||| 'a' as u32 <= c as u32 && c as u32 <= 'z' as u32
    ||| 'A' as u32 <= c as u32 && c as u32 <= 'Z' as u32
    ||| '0' as u32 <= c as u32 && c as u32 <= '9' as u32
    ||| c == '_'
    ||| c == '-'
}

/// A well-shaped identifier: exactly `ID_LENGTH` characters, all URL-safe.
pub open spec fn is_valid_id(s: Seq<char>) -> bool {
    &&& s.len() == ID_LENGTH as nat
    &&& forall|i: int| 0 <= i < s.len() ==> is_url_safe_char(s[i])
}

/// Relies on nanoid::format with nanoid's URL-safe alphabet (`alphabet::SAFE`,
/// 64 characters: ASCII letters, digits, `_` and `-`) and its default random
/// source: the result has exactly `len` characters, each from that alphabet.
/// The result is random, so nothing more is promised of it.
#[verifier::external_body]
fn generate_raw(len: usize) -> (r: String)
    ensures
        r@.len() == len as nat,
        forall|i: int| 0 <= i < r@.len() ==> is_url_safe_char(r@[i]),
{
    nanoid::format(nanoid::rngs::default, &nanoid::alphabet::SAFE, len)
}

/// Produce a fresh random candidate identifier.
///
/// The result always has the fixed length and the URL-safe alphabet; it is
/// not guaranteed unique on its own, so callers that need uniqueness must
/// check it against what they already hold.
pub fn generate_id() -> (r: String)
    ensures
        is_valid_id(r@),
{
    generate_raw(ID_LENGTH)
}

} // verus!
