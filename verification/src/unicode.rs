//! Unicode classification and case folding, taken from the standard library
//! behind named results: the Unicode tables are far too large to restate, so
//! the contracts speak of these names and the logic is verified relative to
//! them.

use vstd::prelude::*;

verus! {

/// What `str::to_lowercase` returns for a text; a function of the chars
/// alone.
pub uninterp spec fn lower_of(s: Seq<char>) -> Seq<char>;

/// Relies on `str::to_lowercase`: the Unicode lowercase of the text, a
/// function of the chars alone, and empty input stays empty.
#[verifier::external_body]
pub fn lower_chars(s: &[char]) -> (r: Vec<char>)
    ensures
        r@ == lower_of(s@),
        s@.len() == 0 ==> r@.len() == 0,
{
    let owned: String = s.iter().collect();
    owned.to_lowercase().chars().collect()
}

/// Whether `char::is_alphabetic` holds of the char.
pub uninterp spec fn is_alpha(c: char) -> bool;

/// Relies on `char::is_alphabetic`: the Unicode `Alphabetic` property, which
/// holds of the ASCII letters and of no ASCII digit, space or symbol.
#[verifier::external_body]
pub fn char_is_alphabetic(c: char) -> (r: bool)
    ensures
        r == is_alpha(c),
        ('a' as u32) <= (c as u32) <= ('z' as u32) || ('A' as u32) <= (c as u32) <= ('Z' as u32)
            ==> r,
        (c as u32) < 0x30 || 0x3a <= (c as u32) < 0x41 || 0x5b <= (c as u32) < 0x61 || 0x7b <= (
        c as u32) < 0x80 ==> !r,
{
    c.is_alphabetic()
}

/// Whether `char::is_alphanumeric` holds of the char.
pub uninterp spec fn is_alnum(c: char) -> bool;

/// Relies on `char::is_alphanumeric`: the Unicode `Alphabetic` property or a
/// numeric char, which holds of the ASCII letters and digits and of no ASCII
/// space or symbol.
#[verifier::external_body]
pub fn char_is_alphanumeric(c: char) -> (r: bool)
    ensures
        r == is_alnum(c),
        ('a' as u32) <= (c as u32) <= ('z' as u32) || ('A' as u32) <= (c as u32) <= ('Z' as u32)
            || ('0' as u32) <= (c as u32) <= ('9' as u32) ==> r,
        (c as u32) < 0x30 || 0x3a <= (c as u32) < 0x41 || 0x5b <= (c as u32) < 0x61 || 0x7b <= (
        c as u32) < 0x80 ==> !r,
{
    c.is_alphanumeric()
}

/// Whether `char::is_uppercase` holds of the char.
pub uninterp spec fn is_upper(c: char) -> bool;

/// Relies on `char::is_uppercase`: the Unicode `Uppercase` property, which
/// holds of the ASCII capitals and of no other ASCII char.
#[verifier::external_body]
pub fn char_is_uppercase(c: char) -> (r: bool)
    ensures
        r == is_upper(c),
        ('A' as u32) <= (c as u32) <= ('Z' as u32) ==> r,
        (c as u32) < 0x41 || 0x5b <= (c as u32) < 0x80 ==> !r,
{
    c.is_uppercase()
}

} // verus!
