//! Character classes of the scanner.
//!
//! Within ASCII every class is written out here, so what the scanner does
//! with ASCII text is stated in full. Beyond ASCII the Unicode tables of the
//! standard library decide which characters are whitespace, letters or
//! numerals; their answers enter the specifications under the names
//! [`unicode_whitespace`], [`unicode_alphabetic`] and [`unicode_numeric`].

use vstd::prelude::*;

verus! {

/// The answer of `char::is_whitespace` for `c`.
pub uninterp spec fn unicode_whitespace(c: char) -> bool;

/// The answer of `char::is_alphabetic` for `c`.
pub uninterp spec fn unicode_alphabetic(c: char) -> bool;

/// The answer of `char::is_numeric` for `c`.
pub uninterp spec fn unicode_numeric(c: char) -> bool;

/// Trusted: `char::is_whitespace` is a function of the character alone; its
/// answer is the one named by [`unicode_whitespace`]. Nothing is claimed
/// about which characters it accepts.
pub assume_specification[ char::is_whitespace ](c: char) -> (b: bool)
    ensures
        b == unicode_whitespace(c),
;

/// Trusted: `char::is_alphabetic` is a function of the character alone; its
/// answer is the one named by [`unicode_alphabetic`]. Nothing is claimed
/// about which characters it accepts.
pub assume_specification[ char::is_alphabetic ](c: char) -> (b: bool)
    ensures
        b == unicode_alphabetic(c),
;

/// Trusted: `char::is_numeric` is a function of the character alone; its
/// answer is the one named by [`unicode_numeric`]. Nothing is claimed about
/// which characters it accepts.
pub assume_specification[ char::is_numeric ](c: char) -> (b: bool)
    ensures
        b == unicode_numeric(c),
;

/// The apostrophe, which delimits string literals.
pub const APOSTROPHE: char = '\'';

/// The line feed, the only character that ends a line.
pub const NEWLINE: char = '\n';

/// `c` lies in the ASCII range.
pub open spec fn spec_in_ascii(c: char) -> bool {
    c <= '\x7f'
}

/// Whitespace: within ASCII the space and the controls from tab to carriage
/// return; beyond ASCII what the Unicode tables call whitespace.
pub open spec fn spec_is_whitespace_char(c: char) -> bool {
    if spec_in_ascii(c) {
        c == ' ' || '\t' <= c <= '\r'
    } else {
        unicode_whitespace(c)
    }
}

/// A decimal digit, `0` to `9`.
pub open spec fn spec_is_digit(c: char) -> bool {
    '0' <= c <= '9'
}

/// A character of a numeric literal: a decimal digit or the period.
pub open spec fn spec_is_number_part(c: char) -> bool {
    spec_is_digit(c) || c == '.'
}

/// A letter: within ASCII `a` to `z` and `A` to `Z`; beyond ASCII what the
/// Unicode tables call alphabetic.
pub open spec fn spec_is_letter(c: char) -> bool {
    if spec_in_ascii(c) {
        'a' <= c <= 'z' || 'A' <= c <= 'Z'
    } else {
        unicode_alphabetic(c)
    }
}

/// A letter or a numeral: within ASCII letters and decimal digits; beyond
/// ASCII what the Unicode tables call alphabetic or numeric.
pub open spec fn spec_is_letter_or_numeral(c: char) -> bool {
    if spec_in_ascii(c) {
        spec_is_letter(c) || spec_is_digit(c)
    } else {
        unicode_alphabetic(c) || unicode_numeric(c)
    }
}

/// A character that may continue an identifier: a letter, a numeral or the
/// underscore.
pub open spec fn spec_is_identifier_part(c: char) -> bool {
    spec_is_letter_or_numeral(c) || c == '_'
}

/// A punctuation mark: the ASCII characters that are neither controls,
/// space, letters nor digits, that is `!` to `/`, `:` to `@`, `[` to `` ` ``
/// and `{` to `~`.
pub open spec fn spec_is_punctuation(c: char) -> bool {
    '!' <= c <= '/' || ':' <= c <= '@' || '[' <= c <= '`' || '{' <= c <= '~'
}

/// The apostrophe.
pub open spec fn spec_is_apostrophe(c: char) -> bool {
    c == APOSTROPHE
}

/// The space character, the only one that counts as indentation.
pub open spec fn spec_is_space(c: char) -> bool {
    c == ' '
}

/// Whether `c` lies in the ASCII range.
#[verifier::when_used_as_spec(spec_in_ascii)]
pub fn in_ascii(c: char) -> (b: bool)
    ensures
        b == spec_in_ascii(c),
{
    c <= '\x7f'
}

/// Whether `c` is whitespace.
#[verifier::when_used_as_spec(spec_is_whitespace_char)]
pub fn is_whitespace_char(c: char) -> (b: bool)
    ensures
        b == spec_is_whitespace_char(c),
{
    if in_ascii(c) {
        c == ' ' || ('\t' <= c && c <= '\r')
    } else {
        c.is_whitespace()
    }
}

/// Whether `c` is a decimal digit.
#[verifier::when_used_as_spec(spec_is_digit)]
pub fn is_digit(c: char) -> (b: bool)
    ensures
        b == spec_is_digit(c),
{
    '0' <= c && c <= '9'
}

/// Whether `c` may stand in a numeric literal.
#[verifier::when_used_as_spec(spec_is_number_part)]
pub fn is_number_part(c: char) -> (b: bool)
    ensures
        b == spec_is_number_part(c),
{
    is_digit(c) || c == '.'
}

/// Whether `c` is a letter.
#[verifier::when_used_as_spec(spec_is_letter)]
pub fn is_letter(c: char) -> (b: bool)
    ensures
        b == spec_is_letter(c),
{
    if in_ascii(c) {
        ('a' <= c && c <= 'z') || ('A' <= c && c <= 'Z')
    } else {
        c.is_alphabetic()
    }
}

/// Whether `c` is a letter or a numeral.
#[verifier::when_used_as_spec(spec_is_letter_or_numeral)]
pub fn is_letter_or_numeral(c: char) -> (b: bool)
    ensures
        b == spec_is_letter_or_numeral(c),
{
    if in_ascii(c) {
        is_letter(c) || is_digit(c)
    } else {
        c.is_alphabetic() || c.is_numeric()
    }
}

/// Whether `c` may continue an identifier.
#[verifier::when_used_as_spec(spec_is_identifier_part)]
pub fn is_identifier_part(c: char) -> (b: bool)
    ensures
        b == spec_is_identifier_part(c),
{
    is_letter_or_numeral(c) || c == '_'
}

/// Whether `c` is a punctuation mark.
#[verifier::when_used_as_spec(spec_is_punctuation)]
pub fn is_punctuation(c: char) -> (b: bool)
    ensures
        b == spec_is_punctuation(c),
{
    ('!' <= c && c <= '/') || (':' <= c && c <= '@') || ('[' <= c && c <= '`') || ('{' <= c && c
        <= '~')
}

/// Whether `c` is the apostrophe.
#[verifier::when_used_as_spec(spec_is_apostrophe)]
pub fn is_apostrophe(c: char) -> (b: bool)
    ensures
        b == spec_is_apostrophe(c),
{
    c == APOSTROPHE
}

/// Whether `c` is the space character.
#[verifier::when_used_as_spec(spec_is_space)]
pub fn is_space(c: char) -> (b: bool)
    ensures
        b == spec_is_space(c),
{
    c == ' '
}

} // verus!
