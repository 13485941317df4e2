//! Character classification and string conversion taken from the standard library.

use vstd::prelude::*;

verus! {

/// Whether a character has the Unicode `Alphabetic` property.
pub uninterp spec fn char_alphabetic(c: char) -> bool;

/// Whether a character has one of the Unicode numeric general categories.
pub uninterp spec fn char_numeric(c: char) -> bool;

/// Whether a character has the Unicode `White_Space` property.
pub uninterp spec fn char_whitespace(c: char) -> bool;

/// A letter: among ASCII characters exactly `A`-`Z` and `a`-`z`.
pub open spec fn letter(c: char) -> bool {
    if (c as u32) < 0x80 {
        (0x41 <= (c as u32) <= 0x5A) || (0x61 <= (c as u32) <= 0x7A)
    } else {
        char_alphabetic(c)
    }
}

/// A digit: among ASCII characters exactly `0`-`9`.
pub open spec fn digit(c: char) -> bool {
    if (c as u32) < 0x80 {
        0x30 <= (c as u32) <= 0x39
    } else {
        char_numeric(c)
    }
}

/// Whitespace: among ASCII characters exactly the space and tab through
/// carriage return.
pub open spec fn space(c: char) -> bool {
    if (c as u32) < 0x80 {
        (c as u32) == 0x20 || (0x09 <= (c as u32) <= 0x0D)
    } else {
        char_whitespace(c)
    }
}

/// Relies on `char::is_alphabetic` (Unicode `Alphabetic`, which among ASCII
/// characters holds of the letters alone).
#[verifier::external_body]
pub(crate) fn is_alphabetic(c: char) -> (r: bool)
    ensures
        r == letter(c),
        (c as u32) >= 0x80 ==> r == char_alphabetic(c),
{
    c.is_alphabetic()
}

/// Relies on `char::is_numeric` (Unicode `Nd`, `Nl` and `No`, which among
/// ASCII characters hold of the digits alone).
#[verifier::external_body]
pub(crate) fn is_numeric(c: char) -> (r: bool)
    ensures
        r == digit(c),
        (c as u32) >= 0x80 ==> r == char_numeric(c),
{
    c.is_numeric()
}

/// Relies on `char::is_alphanumeric`, documented as `is_alphabetic() || is_numeric()`.
#[verifier::external_body]
pub(crate) fn is_alphanumeric(c: char) -> (r: bool)
    ensures
        r == (letter(c) || digit(c)),
{
    c.is_alphanumeric()
}

/// Relies on `char::is_whitespace` (Unicode `White_Space`, which among ASCII
/// characters holds of U+0009 to U+000D and the space alone).
#[verifier::external_body]
pub(crate) fn is_whitespace(c: char) -> (r: bool)
    ensures
        r == space(c),
        (c as u32) >= 0x80 ==> r == char_whitespace(c),
{
    c.is_whitespace()
}

/// Relies on `str::chars` collected into a `Vec`: the characters of `s` in order.
#[verifier::external_body]
pub(crate) fn chars_of(s: &str) -> (r: Vec<char>)
    ensures
        r@ == s@,
{
    s.chars().collect()
}

/// Relies on collecting characters into a `String` (`FromIterator<&char>`).
#[verifier::external_body]
pub(crate) fn string_of(v: &Vec<char>) -> (r: String)
    ensures
        r@ == v@,
{
    v.iter().collect()
}

} // verus!
