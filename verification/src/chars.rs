//! Character classes of whole strings. Each test holds of a string whose
//! characters all belong to the class, and of no empty string.

use vstd::prelude::*;
use crate::text::all_in_class;
use crate::text::every_char_in_class;
use crate::text::CharClass;

verus! {

/// Whether `s` is not empty and holds letters only.
pub fn is_alpha(s: &str) -> (r: bool)
    ensures
        r == (s@.len() > 0 && all_in_class(s@, CharClass::Alphabetic)),
{
    !s.is_empty() && every_char_in_class(s, CharClass::Alphabetic)
}

/// Whether `s` is not empty and holds letters and numbers only.
pub fn is_alnum(s: &str) -> (r: bool)
    ensures
        r == (s@.len() > 0 && all_in_class(s@, CharClass::Alphanumeric)),
{
    !s.is_empty() && every_char_in_class(s, CharClass::Alphanumeric)
}

/// Whether `s` is not empty and holds ASCII digits only.
pub fn is_digit(s: &str) -> (r: bool)
    ensures
        r == (s@.len() > 0 && all_in_class(s@, CharClass::AsciiDigit)),
{
    !s.is_empty() && every_char_in_class(s, CharClass::AsciiDigit)
}

/// Whether `s` is not empty and holds ASCII whitespace only.
pub fn is_ws(s: &str) -> (r: bool)
    ensures
        r == (s@.len() > 0 && all_in_class(s@, CharClass::AsciiWhitespace)),
{
    !s.is_empty() && every_char_in_class(s, CharClass::AsciiWhitespace)
}

} // verus!
