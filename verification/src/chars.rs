//! Character classes from the Unicode tables of `core`, and the one `String`
//! operation that vstd leaves unspecified.
use vstd::prelude::*;

verus! {

/// Whether `c` has the Unicode `White_Space` property, as `char::is_whitespace` decides.
pub uninterp spec fn is_whitespace_char(c: char) -> bool;

/// Whether `c` has the Unicode `Alphabetic` property, as `char::is_alphabetic` decides.
pub uninterp spec fn is_alphabetic_char(c: char) -> bool;

/// Whether `c` is in one of the Unicode number categories (`Nd`, `Nl`, `No`),
/// as `char::is_numeric` decides.
pub uninterp spec fn is_numeric_char(c: char) -> bool;

/// Calls `char::is_whitespace`. Its result depends on `c` alone, and is named
/// `is_whitespace_char`; the Unicode table itself is not written out.
#[verifier::external_body]
pub fn char_is_whitespace(c: char) -> (r: bool)
    ensures
        r == is_whitespace_char(c),
{
    c.is_whitespace()
}

/// Calls `char::is_alphabetic`. Its result depends on `c` alone, and is named
/// `is_alphabetic_char`; the Unicode table itself is not written out.
#[verifier::external_body]
pub fn char_is_alphabetic(c: char) -> (r: bool)
    ensures
        r == is_alphabetic_char(c),
{
    c.is_alphabetic()
}

/// Calls `char::is_numeric`. Its result depends on `c` alone, and is named
/// `is_numeric_char`; the Unicode table itself is not written out.
#[verifier::external_body]
pub fn char_is_numeric(c: char) -> (r: bool)
    ensures
        r == is_numeric_char(c),
{
    c.is_numeric()
}

/// `String::push` appends one character at the end of the string.
pub assume_specification[ std::string::String::push ](s: &mut std::string::String, ch: char)
    ensures
        final(s)@ == old(s)@.push(ch),
;

} // verus!
