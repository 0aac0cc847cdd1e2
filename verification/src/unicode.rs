//! Unicode character classification, taken on trust from std.
//!
//! The digit and alphanumeric atoms classify a single code point the way
//! std's `char` methods do. Those classifications are functions of the
//! character alone, but spelling them out would mean transcribing Unicode
//! tables, so each result is given an uninterpreted name instead.

use vstd::prelude::*;

verus! {

/// Whether std's `char::is_numeric` accepts the character.
pub uninterp spec fn is_numeric_char(c: char) -> bool;

/// Whether std's `char::is_alphanumeric` accepts the character.
pub uninterp spec fn is_alnum_char(c: char) -> bool;

/// Relies on char::is_numeric: whether the character has a Unicode numeric
/// general category; the result depends on the character alone.
#[verifier::external_body]
pub fn char_is_numeric(c: char) -> (r: bool)
    ensures
        r == is_numeric_char(c),
{
    c.is_numeric()
}

/// Relies on char::is_alphanumeric: whether the character is Unicode
/// alphabetic or numeric; the result depends on the character alone.
#[verifier::external_body]
pub fn char_is_alnum(c: char) -> (r: bool)
    ensures
        r == is_alnum_char(c),
{
    c.is_alphanumeric()
}

} // verus!
