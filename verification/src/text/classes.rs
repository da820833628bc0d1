//! Character classes used by the scanner.
//!
//! Within ASCII the classes are spelled out here. Beyond ASCII they are what
//! the Unicode tables of the standard library say.

use vstd::prelude::*;

verus! {

/// What `char::is_whitespace` answers for `c`.
pub uninterp spec fn unicode_white_space(c: char) -> bool;

/// What `char::is_alphabetic` answers for `c`.
pub uninterp spec fn unicode_alphabetic(c: char) -> bool;

/// `char::is_whitespace` looks its argument up in the Unicode tables that
/// the standard library was built with: the answer depends on the character
/// alone. Nothing more is claimed of it.
pub assume_specification[ char::is_whitespace ](c: char) -> (answer: bool)
    ensures
        answer == unicode_white_space(c),
;

/// `char::is_alphabetic` looks its argument up in the Unicode tables that
/// the standard library was built with: the answer depends on the character
/// alone. Nothing more is claimed of it.
pub assume_specification[ char::is_alphabetic ](c: char) -> (answer: bool)
    ensures
        answer == unicode_alphabetic(c),
;

/// Whether `c` is an ASCII character.
pub open spec fn is_ascii_char(c: char) -> bool {
    c <= '\u{7f}'
}

/// Whether `c` is whitespace: within ASCII the blank and the control
/// characters from tab to carriage return, beyond ASCII what Unicode calls
/// white space.
pub open spec fn is_whitespace_char(c: char) -> bool {
    if is_ascii_char(c) {
        c == ' ' || ('\t' <= c && c <= '\r')
    } else {
        unicode_white_space(c)
    }
}

/// Whether `c` is a letter: within ASCII the letters `a` to `z` and `A` to
/// `Z`, beyond ASCII what Unicode calls alphabetic.
pub open spec fn is_alphabetic_char(c: char) -> bool {
    if is_ascii_char(c) {
        ('a' <= c && c <= 'z') || ('A' <= c && c <= 'Z')
    } else {
        unicode_alphabetic(c)
    }
}

/// Whether `c` is one of the decimal digits `0` to `9`.
pub open spec fn is_decimal_digit(c: char) -> bool {
    '0' <= c <= '9'
}

/// The value of the decimal digit `c`.
pub open spec fn decimal_digit_value(c: char) -> int {
    c as int - '0' as int
}

/// Whether `c` is whitespace.
pub fn is_blank(c: char) -> (answer: bool)
    ensures
        answer == is_whitespace_char(c),
{
    if c <= '\u{7f}' {
        c == ' ' || ('\t' <= c && c <= '\r')
    } else {
        c.is_whitespace()
    }
}

/// Whether `c` is a letter.
pub fn is_letter(c: char) -> (answer: bool)
    ensures
        answer == is_alphabetic_char(c),
{
    if c <= '\u{7f}' {
        ('a' <= c && c <= 'z') || ('A' <= c && c <= 'Z')
    } else {
        c.is_alphabetic()
    }
}

/// Whether `c` is one of the decimal digits `0` to `9`.
pub fn is_digit(c: char) -> (answer: bool)
    ensures
        answer == is_decimal_digit(c),
{
    '0' <= c && c <= '9'
}

/// The value of the decimal digit `c`.
pub fn digit_value(c: char) -> (value: i64)
    requires
        is_decimal_digit(c),
    ensures
        value == decimal_digit_value(c),
        0 <= value <= 9,
{
    let code: u32 = c as u32;
    let zero: u32 = '0' as u32;
    (code - zero) as i64
}

} // verus!
