//! Character classes and string conversions shared by the two scanners.
//!
//! Whitespace and letters follow the Unicode classes of
//! `char::is_whitespace` and `char::is_alphabetic`: the whitespace set is
//! small and written out in [`is_whitespace_char`]; the alphabetic set is
//! far too large to state and is only named by [`is_alpha_char`]. Numeric
//! literals are built from the ASCII digits alone: that is the set the
//! grammar's number rules are defined over.

use vstd::prelude::*;

verus! {

/// The characters with the Unicode `White_Space` property: the ASCII
/// whitespace characters, next line, no-break space, ogham space mark,
/// the en-quad .. hair-space range, line and paragraph separators, narrow
/// no-break space, medium mathematical space and ideographic space.
pub open spec fn is_whitespace_char(c: char) -> bool {
    c == '\t' || c == '\n' || c == '\u{b}' || c == '\u{c}' || c == '\r' || c == ' '
        || c == '\u{85}' || c == '\u{a0}' || c == '\u{1680}' || ('\u{2000}' <= c && c
        <= '\u{200a}') || c == '\u{2028}' || c == '\u{2029}' || c == '\u{202f}' || c == '\u{205f}'
        || c == '\u{3000}'
}

/// Relies on char::is_whitespace: true exactly on the characters with the
/// Unicode `White_Space` property, the set written out in
/// [`is_whitespace_char`].
pub assume_specification[ char::is_whitespace ](c: char) -> (r: bool)
    ensures
        r == is_whitespace_char(c),
;

/// What `char::is_alphabetic` returns: true on the characters with the
/// Unicode `Alphabetic` property, a set far too large to write out. The
/// result depends on the character alone.
pub uninterp spec fn is_alpha_char(c: char) -> bool;

/// Relies on char::is_alphabetic: the classification depends on the
/// character alone, so its result is only named, by [`is_alpha_char`].
pub assume_specification[ char::is_alphabetic ](c: char) -> (r: bool)
    ensures
        r == is_alpha_char(c),
;

/// The ASCII decimal digits.
pub open spec fn is_digit_char(c: char) -> bool {
    '0' <= c && c <= '9'
}

pub fn is_digit(c: char) -> (r: bool)
    ensures
        r == is_digit_char(c),
{
    '0' <= c && c <= '9'
}

/// Relies on str::chars: iterating a string slice yields exactly the
/// characters of its view, in order; they are collected into a vector.
#[verifier::external_body]
pub fn chars_of(s: &str) -> (v: Vec<char>)
    ensures
        v@ == s@,
{
    s.chars().collect()
}

/// Relies on String's FromIterator: collecting characters builds the string
/// whose characters are exactly those of the vector, in order.
#[verifier::external_body]
pub fn string_of_chars(v: &Vec<char>) -> (s: String)
    ensures
        s@ == v@,
{
    v.iter().collect()
}

} // verus!
