//! Character classes of the formula grammar.
//!
//! The ASCII classes are defined here outright. Whitespace, letters and
//! alphanumerics follow Unicode, as the standard library's `char` methods
//! decide it; beyond ASCII their answers are tables, which this module names
//! instead of restating.
use vstd::prelude::*;

verus! {

/// Whether a character beyond ASCII has the Unicode `White_Space` property,
/// as `char::is_whitespace` answers it.
pub uninterp spec fn unicode_white_space(c: char) -> bool;

/// Whether a character beyond ASCII has the Unicode `Alphabetic` property,
/// as `char::is_alphabetic` answers it.
pub uninterp spec fn unicode_alphabetic(c: char) -> bool;

/// Whether a character beyond ASCII is numeric in Unicode's sense (a decimal
/// digit, a letter number or another number), as `char::is_numeric` answers
/// it and `char::is_alphanumeric` takes it over.
pub uninterp spec fn unicode_numeric(c: char) -> bool;

/// The first 128 characters, for which the classes are written out.
pub open spec fn is_ascii(c: char) -> bool {
    c <= '\x7f'
}

/// `0` to `9`.
pub open spec fn is_digit(c: char) -> bool {
    '0' <= c <= '9'
}

/// `1` to `9`: what a row number may start with.
pub open spec fn is_nonzero_digit(c: char) -> bool {
    '1' <= c <= '9'
}

/// `A` to `Z`: a column letter.
pub open spec fn is_upper(c: char) -> bool {
    'A' <= c <= 'Z'
}

/// `a` to `z`.
pub open spec fn is_lower(c: char) -> bool {
    'a' <= c <= 'z'
}

/// Unicode whitespace. In ASCII that is the space and the controls from tab
/// to carriage return, vertical tab and form feed included.
pub open spec fn is_space(c: char) -> bool {
    if is_ascii(c) {
        c == ' ' || '\t' <= c <= '\r'
    } else {
        unicode_white_space(c)
    }
}

/// A Unicode letter. In ASCII that is `A` to `Z` and `a` to `z`.
pub open spec fn is_letter(c: char) -> bool {
    if is_ascii(c) {
        is_upper(c) || is_lower(c)
    } else {
        unicode_alphabetic(c)
    }
}

/// A Unicode letter or number. In ASCII that is the letters and `0` to `9`.
pub open spec fn is_letter_or_number(c: char) -> bool {
    if is_ascii(c) {
        is_upper(c) || is_lower(c) || is_digit(c)
    } else {
        unicode_alphabetic(c) || unicode_numeric(c)
    }
}

/// Trusted: `char::is_whitespace` of the standard library. For an ASCII
/// character the answer is written out (space, or tab through carriage
/// return); for any other it is whatever the library's `White_Space` table
/// holds, which `unicode_white_space` names.
pub assume_specification[ char::is_whitespace ](c: char) -> (r: bool)
    ensures
        c <= '\x7f' ==> r == (c == ' ' || '\t' <= c <= '\r'),
        c > '\x7f' ==> r == unicode_white_space(c),
;

/// Trusted: `char::is_alphabetic` of the standard library. For an ASCII
/// character the answer is written out (the 52 letters); for any other it is
/// whatever the library's `Alphabetic` table holds, which
/// `unicode_alphabetic` names.
pub assume_specification[ char::is_alphabetic ](c: char) -> (r: bool)
    ensures
        c <= '\x7f' ==> r == ('A' <= c <= 'Z' || 'a' <= c <= 'z'),
        c > '\x7f' ==> r == unicode_alphabetic(c),
;

/// Trusted: `char::is_alphanumeric` of the standard library, which holds of
/// what is alphabetic or numeric. For an ASCII character the answer is
/// written out (the letters and the ten digits); for any other it is that of
/// `char::is_alphabetic`, or else whatever the library's tables of numbers
/// hold, which `unicode_numeric` names.
pub assume_specification[ char::is_alphanumeric ](c: char) -> (r: bool)
    ensures
        c <= '\x7f' ==> r == ('A' <= c <= 'Z' || 'a' <= c <= 'z' || '0' <= c <= '9'),
        c > '\x7f' ==> r == (unicode_alphabetic(c) || unicode_numeric(c)),
;

/// The classes of characters that the tokenizer reads in runs.
#[derive(Clone, Copy, Debug, PartialEq, Eq)]
pub enum CharClass {
    /// Separates tokens; skipped before each of them.
    Whitespace,
    /// `0` to `9`.
    Digit,
    /// `A` to `Z`.
    Uppercase,
    /// What a keyword is read from: letters, numbers and `_`.
    Identifier,
    /// What follows the `#` of an error literal: letters, numbers, `/`, `!`
    /// and `?`.
    ErrorText,
}

impl CharClass {
    /// Whether `c` belongs to the class.
    pub open spec fn contains(self, c: char) -> bool {
        match self {
            CharClass::Whitespace => is_space(c),
            CharClass::Digit => is_digit(c),
            CharClass::Uppercase => is_upper(c),
            CharClass::Identifier => is_letter_or_number(c) || c == '_',
            CharClass::ErrorText => is_letter_or_number(c) || c == '/' || c == '!' || c == '?',
        }
    }

    /// Decides membership of `c` in the class.
    pub fn accepts(self, c: char) -> (r: bool)
        ensures
            r == self.contains(c),
    {
        match self {
            CharClass::Whitespace => c.is_whitespace(),
            CharClass::Digit => is_ascii_digit(c),
            CharClass::Uppercase => is_ascii_uppercase(c),
            CharClass::Identifier => c.is_alphanumeric() || c == '_',
            CharClass::ErrorText => c.is_alphanumeric() || c == '/' || c == '!' || c == '?',
        }
    }
}

/// Whether `c` is one of `0` to `9`.
pub fn is_ascii_digit(c: char) -> (r: bool)
    ensures
        r == is_digit(c),
{
    '0' <= c && c <= '9'
}

/// Whether `c` is one of `1` to `9`.
pub fn is_row_start(c: char) -> (r: bool)
    ensures
        r == is_nonzero_digit(c),
{
    '1' <= c && c <= '9'
}

/// Whether `c` is one of `A` to `Z`.
pub fn is_ascii_uppercase(c: char) -> (r: bool)
    ensures
        r == is_upper(c),
{
    'A' <= c && c <= 'Z'
}

} // verus!
