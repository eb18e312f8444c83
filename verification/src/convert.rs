//! Conversions between codepoint values, characters and strings.
//!
//! This module holds the crate's only trusted items: two small wrappers
//! around functions of std that vstd gives no specification to.

use vstd::prelude::*;

verus! {

/// True exactly when `u` is a Unicode scalar value, i.e. the numeric value
/// of some `char`: at most `0x10FFFF` and outside the surrogate range.
pub fn is_valid_scalar(u: u32) -> (b: bool)
    ensures
        b == vstd::utf8::is_scalar(u),
{
    u <= 0x10FFFF && !(0xD800 <= u && u <= 0xDFFF)
}

/// Relies on `char::from_u32`: for a Unicode scalar value it returns the
/// character with exactly that value (it returns `None` only for surrogates
/// and values above the maximum scalar value).
#[verifier::external_body]
pub fn scalar_to_char(u: u32) -> (c: char)
    requires
        vstd::utf8::is_scalar(u),
    ensures
        c as u32 == u,
{
    match char::from_u32(u) {
        Some(c) => c,
        None => ' ',
    }
}

/// Relies on `String`'s `FromIterator<char>` impl: collecting characters
/// into a `String` concatenates exactly those characters in order.
#[verifier::external_body]
pub fn chars_to_string(v: &Vec<char>) -> (s: String)
    ensures
        s@ == v@,
{
    v.iter().collect()
}

} // verus!
