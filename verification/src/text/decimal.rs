//! Integers written in decimal.

use vstd::prelude::*;
use vstd::string::*;
use crate::text::classes::{decimal_digit_value, is_decimal_digit};

verus! {

/// The character for the digit `digit`, for `digit < 10`.
pub open spec fn digit_char(digit: nat) -> char {
    (digit + '0' as nat) as char
}

/// The decimal digits of `number`, most significant first, without leading
/// zeros.
pub open spec fn decimal_digits(number: nat) -> Seq<char>
    decreases number,
{
    if number < 10 {
        seq![digit_char(number)]
    } else {
        decimal_digits(number / 10).push(digit_char(number % 10))
    }
}

/// `number` written in decimal, with a minus sign in front if it is
/// negative.
pub open spec fn decimal_text(number: int) -> Seq<char> {
    if number < 0 {
        seq!['-'] + decimal_digits((-number) as nat)
    } else {
        decimal_digits(number as nat)
    }
}

/// Whether every character of `text` is a decimal digit.
pub open spec fn all_digits(text: Seq<char>) -> bool {
    forall|i: int| 0 <= i < text.len() ==> is_decimal_digit(#[trigger] text[i])
}

/// The number that a run of decimal digits denotes.
pub open spec fn decimal_value(digits: Seq<char>) -> nat
    decreases digits.len(),
{
    if digits.len() == 0 {
        0
    } else {
        (decimal_value(digits.drop_last()) * 10 + decimal_digit_value(digits.last())) as nat
    }
}

/// A number written in decimal is a run of digits, not empty, that denotes
/// the number.
pub proof fn lemma_decimal_digits(number: nat)
    ensures
        decimal_digits(number).len() >= 1,
        all_digits(decimal_digits(number)),
        decimal_value(decimal_digits(number)) == number,
    decreases number,
{
    let digits = decimal_digits(number);
    if number < 10 {
        assert(decimal_value(digits.drop_last()) == 0);
    } else {
        lemma_decimal_digits(number / 10);
        assert(digits.drop_last() =~= decimal_digits(number / 10));
    }
}

/// The text of one decimal digit.
fn digit_text(digit: u64) -> (text: &'static str)
    requires
        digit < 10,
    ensures
        text@ == seq![digit_char(digit as nat)],
{
    proof {
        reveal_strlit("0");
        reveal_strlit("1");
        reveal_strlit("2");
        reveal_strlit("3");
        reveal_strlit("4");
        reveal_strlit("5");
        reveal_strlit("6");
        reveal_strlit("7");
        reveal_strlit("8");
        reveal_strlit("9");
    }
    let text = if digit == 0 {
        "0"
    } else if digit == 1 {
        "1"
    } else if digit == 2 {
        "2"
    } else if digit == 3 {
        "3"
    } else if digit == 4 {
        "4"
    } else if digit == 5 {
        "5"
    } else if digit == 6 {
        "6"
    } else if digit == 7 {
        "7"
    } else if digit == 8 {
        "8"
    } else {
        "9"
    };
    text
}

/// `number` written in decimal.
pub fn format_unsigned(number: u64) -> (text: String)
    ensures
        text@ == decimal_digits(number as nat),
    decreases number,
{
    if number < 10 {
        digit_text(number).to_owned()
    } else {
        let mut text = format_unsigned(number / 10);
        text.append(digit_text(number % 10));
        text
    }
}

/// `number` written in decimal, with a minus sign in front if it is
/// negative.
pub fn format_integer(number: i64) -> (text: String)
    ensures
        text@ == decimal_text(number as int),
{
    if number < 0 {
        let magnitude: u64 = (-(number + 1)) as u64 + 1;
        proof {
            reveal_strlit("-");
        }
        let mut text = "-".to_owned();
        text.append(format_unsigned(magnitude).as_str());
        text
    } else {
        format_unsigned(number as u64)
    }
}

} // verus!
