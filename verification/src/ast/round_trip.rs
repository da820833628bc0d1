//! Printing and parsing back: what the printer writes for a tree that was
//! parsed without a diagnostic, taken without its colours, is scanned and
//! parsed into a tree of the same structure.

use vstd::prelude::*;
use crate::ast::lexer::{
    digits_end, end_of_input, lemma_run_bounds, lemma_token_end_bounds, punctuation_kind,
    token_at, token_end, tokens_from, TokenKind, TokenView,
};
use crate::ast::lexer_laws::lemma_number_value_wraps;
use crate::ast::parser::{
    ends_with_eof, is_significant, join, lemma_significant_end_with_eof, operator_of,
    parse_binary, parse_expression, parse_operators, parse_primary, peek, remaining, significant,
    without_whitespace, Parsed,
};
use crate::ast::lexer_laws::lemma_tokens_end_with_eof;
use crate::ast::parser_laws::{
    agree, alike, is_arithmetic, kinds_of, lemma_binary_again, lemma_clean_binary,
    lemma_no_names, same_shape, token_after,
};
use crate::ast::{ExprView, OperatorView, Palette, write_expression};
use crate::pipeline::significant_tokens;
use crate::text::classes::is_decimal_digit;
use crate::text::decimal::{decimal_digits, lemma_decimal_digits};

verus! {

/// The text of the operator that a token of kind `kind` stands for.
pub open spec fn symbol_of(kind: TokenKind) -> Seq<char> {
    match kind {
        TokenKind::Plus => seq!['+'],
        TokenKind::Minus => seq!['-'],
        TokenKind::Asterisk => seq!['*'],
        TokenKind::Slash => seq!['/'],
        _ => Seq::empty(),
    }
}

/// Whether `token`, if it is an operator, has the operator's text as its
/// literal.
pub open spec fn faithful(token: TokenView) -> bool {
    operator_of(token.kind) is Some ==> token.span.literal == symbol_of(token.kind)
}

/// Whether every token of `tokens` is faithful.
pub open spec fn all_faithful(tokens: Seq<TokenView>) -> bool {
    forall|index: int| 0 <= index < tokens.len() ==> faithful(#[trigger] tokens[index])
}

/// The kinds of `tokens`.
pub open spec fn kinds(tokens: Seq<TokenView>) -> Seq<TokenKind> {
    tokens.map_values(|token: TokenView| token.kind)
}

/// The tokens of `source` from character `from` on, whitespace left out,
/// the end-of-input token last.
pub open spec fn significant_from(source: Seq<char>, from: int) -> Seq<TokenView>
    decreases source.len() - from,
{
    if 0 <= from < source.len() {
        proof {
            lemma_token_end_bounds(source, from);
        }
        let token = token_at(source, from);
        let rest = significant_from(source, token_end(source, from));
        if is_significant(token) {
            seq![token] + rest
        } else {
            rest
        }
    } else {
        seq![end_of_input()]
    }
}

/// Leaving the whitespace out while scanning or after it comes to the same.
pub proof fn lemma_significant_from(source: Seq<char>, from: int)
    ensures
        significant_from(source, from) == without_whitespace(tokens_from(source, from)),
    decreases source.len() - from,
{
    reveal(Seq::filter);
    if 0 <= from < source.len() {
        lemma_token_end_bounds(source, from);
        let token = token_at(source, from);
        let rest = tokens_from(source, token_end(source, from));
        lemma_significant_from(source, token_end(source, from));
        Seq::filter_distributes_over_add(seq![token], rest, significant());
        assert(seq![token].drop_last().filter(significant()) =~= Seq::<TokenView>::empty());
    }
}

/// Every token that scanning yields is faithful: an operator token reads
/// as the operator.
pub proof fn lemma_scanned_tokens_are_faithful(source: Seq<char>, from: int)
    ensures
        all_faithful(significant_from(source, from)),
    decreases source.len() - from,
{
    if 0 <= from < source.len() {
        lemma_token_end_bounds(source, from);
        lemma_run_bounds(source, from);
        let token = token_at(source, from);
        lemma_scanned_tokens_are_faithful(source, token_end(source, from));
        if operator_of(token.kind) is Some {
            assert(token.span.literal =~= seq![source[from]]);
        }
    }
}

/// Whether every operator in `expression` has the operator's text as the
/// literal of its token.
pub open spec fn written_faithfully(expression: ExprView) -> bool
    decreases expression,
{
    match expression {
        ExprView::Binary { operator, left, right } => {
            &&& operator_of(operator.token.kind) is Some
            &&& faithful(operator.token)
            &&& written_faithfully(*left)
            &&& written_faithfully(*right)
        },
        ExprView::Parenthesized(inner) => written_faithfully(*inner),
        _ => true,
    }
}

/// A token at any place of a faithful sequence is faithful.
proof fn lemma_faithful_peek(tokens: Seq<TokenView>, at: nat)
    requires
        ends_with_eof(tokens),
        all_faithful(tokens),
    ensures
        faithful(peek(tokens, at)),
{
}

/// A primary expression parsed from faithful tokens is written faithfully.
pub proof fn lemma_primary_is_faithful(tokens: Seq<TokenView>, at: nat)
    requires
        ends_with_eof(tokens),
        all_faithful(tokens),
    ensures
        written_faithfully(parse_primary(tokens, at).node),
    decreases remaining(tokens, at), 0nat,
{
    match peek(tokens, at).kind {
        TokenKind::LeftParen => {
            lemma_binary_is_faithful(tokens, at + 1, 0);
        },
        _ => {},
    }
}

/// An expression parsed from faithful tokens is written faithfully.
pub proof fn lemma_binary_is_faithful(tokens: Seq<TokenView>, at: nat, floor: nat)
    requires
        ends_with_eof(tokens),
        all_faithful(tokens),
    ensures
        written_faithfully(parse_binary(tokens, at, floor).node),
    decreases remaining(tokens, at), 2nat,
{
    lemma_primary_is_faithful(tokens, at);
    lemma_operators_are_faithful(tokens, at, parse_primary(tokens, at), floor);
}

/// The same, for the continuation of an expression.
pub proof fn lemma_operators_are_faithful(
    tokens: Seq<TokenView>,
    at: nat,
    left: Parsed<ExprView>,
    floor: nat,
)
    requires
        ends_with_eof(tokens),
        all_faithful(tokens),
        written_faithfully(left.node),
    ensures
        written_faithfully(parse_operators(tokens, at, left, floor).node),
    decreases remaining(tokens, at + left.consumed), 1nat,
{
    let token = peek(tokens, at + left.consumed);
    lemma_faithful_peek(tokens, at + left.consumed);
    match operator_of(token.kind) {
        None => {},
        Some(kind) => {
            if kind.binding() > floor {
                let start = at + left.consumed + 1;
                lemma_binary_is_faithful(tokens, start, kind.binding());
                lemma_operators_are_faithful(
                    tokens,
                    at,
                    join(left, OperatorView { kind, token }, parse_binary(tokens, start, kind.binding())),
                    floor,
                );
            }
        },
    }
}

/// Whether no number in `expression` is negative.
pub open spec fn literals_are_natural(expression: ExprView) -> bool
    decreases expression,
{
    match expression {
        ExprView::Number(number) => number >= 0,
        ExprView::Binary { operator, left, right } => literals_are_natural(*left)
            && literals_are_natural(*right),
        ExprView::Parenthesized(inner) => literals_are_natural(*inner),
        _ => true,
    }
}

/// `expression` as the printer writes it, without the colours.
pub open spec fn plain_text(expression: ExprView) -> Seq<char> {
    write_expression(Palette::plain(), expression)
}

/// Whether `text` stands in `source` from character `from` on, and no
/// digit follows it.
pub open spec fn stands_at(source: Seq<char>, from: int, text: Seq<char>) -> bool {
    &&& 0 <= from
    &&& from + text.len() <= source.len()
    &&& source.subrange(from, from + text.len()) == text
    &&& from + text.len() < source.len() ==> !is_decimal_digit(source[from + text.len()])
}

/// A run of digits ends where a character follows that is no digit.
proof fn lemma_digits_end_at(source: Seq<char>, from: int, to: int)
    requires
        0 <= from <= to <= source.len(),
        forall|index: int| from <= index < to ==> is_decimal_digit(#[trigger] source[index]),
        to < source.len() ==> !is_decimal_digit(source[to]),
    ensures
        digits_end(source, from) == to,
    decreases to - from,
{
    if from < to {
        lemma_digits_end_at(source, from + 1, to);
    }
}

/// A blank is left out.
proof fn lemma_scan_blank(source: Seq<char>, at: int)
    requires
        0 <= at < source.len(),
        source[at] == ' ',
    ensures
        significant_from(source, at) == significant_from(source, at + 1),
{
}

/// An operator or a parenthesis is a token of its own.
proof fn lemma_scan_symbol(source: Seq<char>, at: int)
    requires
        0 <= at < source.len(),
        source[at] == '+' || source[at] == '-' || source[at] == '*' || source[at] == '/'
            || source[at] == '(' || source[at] == ')',
    ensures
        kinds(significant_from(source, at)) == seq![punctuation_kind(source[at])] + kinds(
            significant_from(source, at + 1),
        ),
{
}

/// A number written in decimal is scanned as that number.
proof fn lemma_scan_number(source: Seq<char>, at: int, number: i64)
    requires
        number >= 0,
        stands_at(source, at, decimal_digits(number as nat)),
    ensures
        kinds(significant_from(source, at)) == seq![TokenKind::Number(number)] + kinds(
            significant_from(source, at + decimal_digits(number as nat).len()),
        ),
{
    let digits = decimal_digits(number as nat);
    let to = at + digits.len();
    lemma_decimal_digits(number as nat);
    assert forall|index: int| at <= index < to implies is_decimal_digit(
        #[trigger] source[index],
    ) by {
        assert(is_decimal_digit(digits[index - at]));
    }
    lemma_digits_end_at(source, at, to);
    lemma_number_value_wraps(digits);
}

/// What the printer writes for an expression, without the colours, is
/// scanned into the tokens that the expression is written with.
pub proof fn lemma_scan_expression(source: Seq<char>, from: int, expression: ExprView)
    requires
        is_arithmetic(expression),
        literals_are_natural(expression),
        written_faithfully(expression),
        stands_at(source, from, plain_text(expression)),
    ensures
        kinds(significant_from(source, from)) == kinds_of(expression) + kinds(
            significant_from(source, from + plain_text(expression).len()),
        ),
    decreases expression,
{
    reveal_strlit(" ");
    reveal_strlit("(");
    reveal_strlit(")");
    let text = plain_text(expression);
    let end = from + text.len();
    match expression {
        ExprView::Number(number) => {
            lemma_scan_number(source, from, number);
        },
        ExprView::Binary { operator, left, right } => {
            let left_text = plain_text(*left);
            let right_text = plain_text(*right);
            let symbol = operator.token.span.literal;
            let middle = from + left_text.len();
            assert(source.subrange(from, middle) =~= left_text) by {
                assert forall|index: int| 0 <= index < left_text.len() implies source.subrange(
                    from,
                    middle,
                )[index] == left_text[index] by {
                }
            }
            assert(source[middle] == ' ') by {
                assert(source.subrange(from, end)[middle - from] == text[middle - from]);
            }
            assert(source[middle + 1] == symbol[0]) by {
                assert(source.subrange(from, end)[middle + 1 - from] == text[middle + 1 - from]);
            }
            assert(source[middle + 2] == ' ') by {
                assert(source.subrange(from, end)[middle + 2 - from] == text[middle + 2 - from]);
            }
            assert(source.subrange(middle + 3, end) =~= right_text) by {
                assert forall|index: int| 0 <= index < right_text.len() implies source.subrange(
                    middle + 3,
                    end,
                )[index] == right_text[index] by {
                    assert(source.subrange(from, end)[middle + 3 - from + index] == text[middle
                        + 3 - from + index]);
                }
            }
            lemma_scan_expression(source, from, *left);
            lemma_scan_blank(source, middle);
            lemma_scan_symbol(source, middle + 1);
            lemma_scan_blank(source, middle + 2);
            lemma_scan_expression(source, middle + 3, *right);
        },
        ExprView::Parenthesized(inner) => {
            let inner_text = plain_text(*inner);
            assert(source[from] == '(') by {
                assert(source.subrange(from, end)[0] == text[0]);
            }
            assert(source[end - 1] == ')') by {
                assert(source.subrange(from, end)[end - 1 - from] == text[end - 1 - from]);
            }
            assert(source.subrange(from + 1, end - 1) =~= inner_text) by {
                assert forall|index: int| 0 <= index < inner_text.len() implies source.subrange(
                    from + 1,
                    end - 1,
                )[index] == inner_text[index] by {
                    assert(source.subrange(from, end)[index + 1] == text[index + 1]);
                }
            }
            lemma_scan_symbol(source, from);
            lemma_scan_expression(source, from + 1, *inner);
            lemma_scan_symbol(source, end - 1);
        },
        _ => {},
    }
}

/// Printing and parsing back gives the same tree. Let an expression be
/// parsed from a source text without a diagnostic, and let it be made of
/// numbers, operators and parentheses alone, no number negative. What the
/// printer writes for it, taken without its colours, is scanned and parsed
/// without a diagnostic into a tree of the same structure, and nothing of
/// the printed text is left over.
pub proof fn lemma_printed_expression_parses_back(source: Seq<char>, at: nat)
    requires
        parse_expression(significant_tokens(source), at).diagnostics.len() == 0,
        is_arithmetic(parse_expression(significant_tokens(source), at).node),
        literals_are_natural(parse_expression(significant_tokens(source), at).node),
    ensures
        ({
            let first = parse_expression(significant_tokens(source), at);
            let printed = significant_tokens(plain_text(first.node));
            let again = parse_expression(printed, 0);
            &&& again.diagnostics.len() == 0
            &&& same_shape(first.node, again.node)
            &&& again.consumed + 1 == printed.len()
        }),
{
    let tokens = significant_tokens(source);
    let first = parse_expression(tokens, at);
    let text = plain_text(first.node);
    let printed = significant_tokens(text);
    lemma_tokens_end_with_eof(source, 0);
    lemma_significant_end_with_eof(tokens_from(source, 0));
    lemma_tokens_end_with_eof(text, 0);
    lemma_significant_end_with_eof(tokens_from(text, 0));
    lemma_significant_from(source, 0);
    lemma_significant_from(text, 0);
    lemma_scanned_tokens_are_faithful(source, 0);
    lemma_binary_is_faithful(tokens, at, 0);
    lemma_clean_binary(tokens, at, 0);
    assert(text.subrange(0, text.len() as int) =~= text);
    lemma_scan_expression(text, 0, first.node);
    let written = kinds_of(first.node);
    assert(kinds(printed) =~= written + seq![TokenKind::Eof]);
    assert(agree(tokens, at, printed, 0, first.consumed)) by {
        assert forall|offset: int| 0 <= offset < first.consumed implies alike(
            #[trigger] token_after(tokens, at, offset),
            token_after(printed, 0, offset),
        ) by {
            assert(kinds(printed)[offset] == printed[offset].kind);
            assert(written[offset] != TokenKind::Id) by {
                lemma_no_names(first.node, offset);
            }
        }
    }
    assert(peek(printed, first.consumed).kind == TokenKind::Eof);
    lemma_binary_again(tokens, at, printed, 0, 0);
}

} // verus!
