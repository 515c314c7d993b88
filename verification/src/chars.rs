//! Character classification for the scanner.
//!
//! A character may open or close a group, count as whitespace, extend an
//! identifier, or match nothing at all. The operator set admitted into
//! identifiers is the configuration constant of this notation: exactly
//! `+` and `/`.

use vstd::prelude::*;

verus! {

/// What `char::is_whitespace` returns; it depends on the character alone.
pub uninterp spec fn char_is_whitespace(c: char) -> bool;

/// What `char::is_alphabetic` returns; it depends on the character alone.
pub uninterp spec fn char_is_alphabetic(c: char) -> bool;

/// Relies on `char::is_whitespace` of std: true exactly for the characters
/// with the Unicode `White_Space` property.
pub assume_specification[ char::is_whitespace ](c: char) -> (r: bool)
    ensures
        r == char_is_whitespace(c),
;

/// Relies on `char::is_alphabetic` of std: true exactly for the characters
/// with the Unicode `Alphabetic` property.
pub assume_specification[ char::is_alphabetic ](c: char) -> (r: bool)
    ensures
        r == char_is_alphabetic(c),
;

/// The operator characters that identifiers may contain.
pub open spec fn is_operator_char(c: char) -> bool {
    c == '+' || c == '/'
}

/// A character that may start or extend an identifier: not whitespace,
/// and either an operator character or alphabetic.
pub open spec fn is_ident_char(c: char) -> bool {
    !char_is_whitespace(c) && (is_operator_char(c) || char_is_alphabetic(c))
}

/// Whether `c` belongs to the operator set.
pub fn is_operator(c: char) -> (r: bool)
    ensures
        r == is_operator_char(c),
{
    c == '+' || c == '/'
}

/// Whether `c` may start or extend an identifier.
pub fn is_valid_ident(c: char) -> (r: bool)
    ensures
        r == is_ident_char(c),
{
    !c.is_whitespace() && (is_operator(c) || c.is_alphabetic())
}

} // verus!
