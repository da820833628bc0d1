//! What holds of every tokenization.

use vstd::prelude::*;
use vstd::arithmetic::div_mod::{
    lemma_add_mod_noop, lemma_mod_multiples_vanish, lemma_mod_twice, lemma_mul_mod_noop_general,
    lemma_small_mod,
};
use vstd::utf8::is_ascii_chars;
use vstd::wrapping::i64_specs::signed_crop;
use crate::ast::lexer::{
    digits_end, end_of_input, lemma_token_end_bounds, number_value, token_at, token_end,
    tokenize, tokens_from, SpanView, TokenKind, TokenView,
};
use crate::ast::parser::ends_with_eof;
use crate::text::classes::decimal_digit_value;
use crate::text::decimal::{all_digits, decimal_value};
use crate::text::encoding::{lemma_utf8_len_ascii, lemma_utf8_len_prefix, utf8_len};

verus! {

/// The literals of `tokens`, one after the other.
pub open spec fn concat_literals(tokens: Seq<TokenView>) -> Seq<char>
    decreases tokens.len(),
{
    if tokens.len() == 0 {
        Seq::empty()
    } else {
        tokens[0].span.literal + concat_literals(tokens.drop_first())
    }
}

/// The literals of the tokens from character `from` on make up the rest of
/// the source.
pub proof fn lemma_literals_from(source: Seq<char>, from: int)
    requires
        0 <= from <= source.len(),
    ensures
        concat_literals(tokens_from(source, from)) == source.skip(from),
    decreases source.len() - from,
{
    if from < source.len() {
        lemma_token_end_bounds(source, from);
        let end = token_end(source, from);
        lemma_literals_from(source, end);
        assert(tokens_from(source, from).drop_first() =~= tokens_from(source, end));
    } else {
        assert(concat_literals(tokens_from(source, from).drop_first()) =~= Seq::<char>::empty());
    }
}

/// Tokenizing loses nothing: the literals of all tokens, whitespace included,
/// put one after the other, are the source.
pub proof fn lemma_tokenize_is_lossless(source: Seq<char>)
    ensures
        concat_literals(tokenize(source)) == source,
{
    lemma_literals_from(source, 0);
}

/// The spans of the tokens tile the source: each token starts where the one
/// before it ended, and a span is as long as its literal.
pub proof fn lemma_token_span(source: Seq<char>, from: int)
    requires
        0 <= from < source.len(),
    ensures
        token_at(source, from).span.well_formed(),
        token_at(source, from).span.start == utf8_len(source.take(from)),
        token_at(source, from).span.end == utf8_len(source.take(token_end(source, from))),
        token_at(source, from).span.end <= utf8_len(source),
{
    lemma_token_end_bounds(source, from);
    lemma_utf8_len_prefix(source, from, token_end(source, from));
}

/// A run of digits that reaches the end of the source ends there.
proof fn lemma_digits_run(source: Seq<char>, from: int)
    requires
        0 <= from <= source.len(),
        all_digits(source),
    ensures
        digits_end(source, from) == source.len(),
    decreases source.len() - from,
{
    if from < source.len() {
        lemma_digits_run(source, from + 1);
    }
}

/// A value and what is left of it after wrapping differ by a multiple of
/// 2^64.
proof fn lemma_crop_is_congruent(x: int)
    ensures
        (signed_crop(x) as int) % 0x1_0000_0000_0000_0000 == x % 0x1_0000_0000_0000_0000,
{
    let m = 0x1_0000_0000_0000_0000int;
    let r = x % m;
    if r > i64::MAX {
        lemma_mod_multiples_vanish(-1, r, m);
        lemma_mod_twice(x, m);
    } else {
        lemma_mod_twice(x, m);
    }
}

/// A wrapping sum is the wrapped sum.
proof fn lemma_wrapping_add_is_crop(y: i64, d: i64)
    ensures
        y.wrapping_add(d) == signed_crop(y + d),
{
    let m = 0x1_0000_0000_0000_0000int;
    let t = y + d;
    if t >= 0 {
        lemma_small_mod(t as nat, m as nat);
    } else {
        lemma_small_mod((t + m) as nat, m as nat);
        lemma_mod_multiples_vanish(1, t, m);
    }
}

/// One step of the scanner's accumulation, on a value that is already
/// wrapped, gives the wrapped value of the step on the unwrapped value.
proof fn lemma_crop_step(a: int, d: int)
    requires
        0 <= d <= 9,
    ensures
        signed_crop(a).wrapping_mul(10).wrapping_add(d as i64) == signed_crop(a * 10 + d),
{
    let m = 0x1_0000_0000_0000_0000int;
    let b = signed_crop(a);
    let scaled = b.wrapping_mul(10);
    lemma_wrapping_add_is_crop(scaled, d as i64);
    lemma_crop_is_congruent(a);
    lemma_crop_is_congruent(b * 10);
    assert((b * 10) % m == (a * 10) % m) by {
        lemma_mul_mod_noop_general(b as int, 10, m);
        lemma_mul_mod_noop_general(a, 10, m);
    }
    assert((scaled + d) % m == (a * 10 + d) % m) by {
        lemma_add_mod_noop(scaled as int, d, m);
        lemma_add_mod_noop(b * 10, d, m);
        lemma_add_mod_noop(a * 10, d, m);
    }
}

/// Wrapping at each digit gives the same as wrapping once at the end.
pub proof fn lemma_number_value_wraps(digits: Seq<char>)
    requires
        all_digits(digits),
    ensures
        number_value(digits) == signed_crop(decimal_value(digits) as int),
        decimal_value(digits) <= i64::MAX ==> number_value(digits) == decimal_value(digits),
    decreases digits.len(),
{
    let m = 0x1_0000_0000_0000_0000int;
    if digits.len() > 0 {
        let init = digits.drop_last();
        lemma_number_value_wraps(init);
        let d = decimal_digit_value(digits.last());
        lemma_crop_step(decimal_value(init) as int, d);
    }
    if decimal_value(digits) <= i64::MAX {
        lemma_small_mod(decimal_value(digits), m as nat);
    }
}

/// A source made of decimal digits alone is one number token and the
/// end-of-input token. The number's span covers the whole source, and its
/// value is the number that the digits denote, wrapped around in 64 bits.
pub proof fn lemma_digits_are_one_number(source: Seq<char>)
    requires
        source.len() > 0,
        all_digits(source),
    ensures
        tokenize(source) == seq![
            TokenView {
                kind: TokenKind::Number(number_value(source)),
                span: SpanView { start: 0, end: source.len(), literal: source },
            },
            end_of_input(),
        ],
        number_value(source) == signed_crop(decimal_value(source) as int),
        decimal_value(source) <= i64::MAX ==> number_value(source) == decimal_value(source),
{
    lemma_digits_run(source, 0);
    lemma_number_value_wraps(source);
    let length = source.len() as int;
    assert(is_ascii_chars(source));
    lemma_utf8_len_ascii(source);
    let number = token_at(source, 0);
    assert(number.span.literal =~= source);
    assert(tokens_from(source, length) =~= seq![end_of_input()]);
}

/// The tokens from any place on end with the end-of-input token.
pub proof fn lemma_tokens_end_with_eof(source: Seq<char>, from: int)
    ensures
        ends_with_eof(tokens_from(source, from)),
    decreases source.len() - from,
{
    if 0 <= from < source.len() {
        lemma_token_end_bounds(source, from);
        lemma_tokens_end_with_eof(source, token_end(source, from));
    }
}

} // verus!
