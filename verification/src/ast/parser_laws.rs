//! What holds of every parse.

use vstd::prelude::*;
use crate::ast::lexer::{TokenKind, TokenView};
use crate::ast::lexer::{end_of_input, SpanView};
use crate::ast::parser::{
    ends_with_eof, join, lemma_operators_keep, lemma_parsing_consumes, operator_of,
    parse_binary, parse_expression, parse_operators, parse_primary, parse_program,
    parse_statement, peek, remaining, Parsed,
};
use crate::ast::{ExprView, OperatorView, StmtView};

verus! {

/// Whether `expression` holds no error node.
pub open spec fn error_free(expression: ExprView) -> bool
    decreases expression,
{
    match expression {
        ExprView::Number(_) => true,
        ExprView::Binary { operator, left, right } => error_free(*left) && error_free(*right),
        ExprView::Parenthesized(inner) => error_free(*inner),
        ExprView::Variable(_) => true,
        ExprView::Error(_) => false,
    }
}

/// Whether `statement` holds no error node.
pub open spec fn statement_error_free(statement: StmtView) -> bool {
    match statement {
        StmtView::Expression(expression) => error_free(expression),
        StmtView::Let { identifier, initializer } => error_free(initializer),
    }
}

/// The kinds of the tokens that `expression` is written with, in order. An
/// error node stands for no token.
pub open spec fn kinds_of(expression: ExprView) -> Seq<TokenKind>
    decreases expression,
{
    match expression {
        ExprView::Number(number) => seq![TokenKind::Number(number)],
        ExprView::Binary { operator, left, right } => kinds_of(*left) + seq![operator.token.kind]
            + kinds_of(*right),
        ExprView::Parenthesized(inner) => seq![TokenKind::LeftParen] + kinds_of(*inner)
            + seq![TokenKind::RightParen],
        ExprView::Variable(identifier) => seq![identifier.kind],
        ExprView::Error(_) => Seq::empty(),
    }
}

/// Whether every operator in `expression` is the one that its token stands
/// for.
pub open spec fn operators_match(expression: ExprView) -> bool
    decreases expression,
{
    match expression {
        ExprView::Binary { operator, left, right } => {
            &&& operator_of(operator.token.kind) == Some(operator.kind)
            &&& operators_match(*left)
            &&& operators_match(*right)
        },
        ExprView::Parenthesized(inner) => operators_match(*inner),
        _ => true,
    }
}

/// The kinds of the `count` tokens from `at` on.
pub open spec fn window(tokens: Seq<TokenView>, at: nat, count: nat) -> Seq<TokenKind> {
    Seq::new(count, |offset: int| peek(tokens, (at + offset) as nat).kind)
}

/// Whether `parsed` reads exactly the tokens it consumed from `at` on, and
/// holds no error node and no operator but the one its token stands for.
pub open spec fn reads_its_tokens(
    tokens: Seq<TokenView>,
    at: nat,
    parsed: Parsed<ExprView>,
) -> bool {
    &&& error_free(parsed.node)
    &&& operators_match(parsed.node)
    &&& kinds_of(parsed.node) == window(tokens, at, parsed.consumed)
}

/// A primary expression that was parsed without a diagnostic reads exactly
/// the tokens it consumed.
pub proof fn lemma_clean_primary(tokens: Seq<TokenView>, at: nat)
    requires
        ends_with_eof(tokens),
        parse_primary(tokens, at).diagnostics.len() == 0,
    ensures
        reads_its_tokens(tokens, at, parse_primary(tokens, at)),
    decreases remaining(tokens, at), 0nat,
{
    let token = peek(tokens, at);
    let parsed = parse_primary(tokens, at);
    match token.kind {
        TokenKind::Number(number) => {
            assert(kinds_of(parsed.node) =~= window(tokens, at, 1));
        },
        TokenKind::LeftParen => {
            lemma_clean_binary(tokens, at + 1, 0);
            assert(kinds_of(parsed.node) =~= window(tokens, at, parsed.consumed));
        },
        TokenKind::Id => {
            assert(kinds_of(parsed.node) =~= window(tokens, at, 1));
        },
        _ => {},
    }
}

/// An expression that was parsed without a diagnostic reads exactly the
/// tokens it consumed.
pub proof fn lemma_clean_binary(tokens: Seq<TokenView>, at: nat, floor: nat)
    requires
        ends_with_eof(tokens),
        parse_binary(tokens, at, floor).diagnostics.len() == 0,
    ensures
        reads_its_tokens(tokens, at, parse_binary(tokens, at, floor)),
    decreases remaining(tokens, at), 2nat,
{
    let first = parse_primary(tokens, at);
    lemma_operators_keep(tokens, at, first, floor);
    lemma_clean_primary(tokens, at);
    lemma_clean_operators(tokens, at, first, floor);
}

/// Continuing an expression that reads its tokens, without a diagnostic,
/// gives an expression that reads its tokens.
pub proof fn lemma_clean_operators(
    tokens: Seq<TokenView>,
    at: nat,
    left: Parsed<ExprView>,
    floor: nat,
)
    requires
        ends_with_eof(tokens),
        reads_its_tokens(tokens, at, left),
        parse_operators(tokens, at, left, floor).diagnostics.len() == 0,
    ensures
        reads_its_tokens(tokens, at, parse_operators(tokens, at, left, floor)),
    decreases remaining(tokens, at + left.consumed), 1nat,
{
    let token = peek(tokens, at + left.consumed);
    match operator_of(token.kind) {
        None => {},
        Some(kind) => {
            if kind.binding() > floor {
                let right = parse_binary(tokens, at + left.consumed + 1, kind.binding());
                let joined = join(left, OperatorView { kind, token }, right);
                lemma_operators_keep(tokens, at, joined, floor);
                lemma_clean_binary(tokens, at + left.consumed + 1, kind.binding());
                assert(kinds_of(joined.node) =~= window(tokens, at, joined.consumed));
                lemma_clean_operators(tokens, at, joined, floor);
            }
        },
    }
}

/// Whether two expressions have the same structure: the same numbers,
/// operators, parentheses and names in the same places, wherever in the
/// source they were read.
pub open spec fn same_shape(one: ExprView, other: ExprView) -> bool
    decreases one,
{
    match one {
        ExprView::Number(number) => other == ExprView::Number(number),
        ExprView::Binary { operator, left, right } => {
            &&& other is Binary
            &&& other->operator.kind == operator.kind
            &&& same_shape(*left, *other->left)
            &&& same_shape(*right, *other->right)
        },
        ExprView::Parenthesized(inner) => {
            &&& other is Parenthesized
            &&& same_shape(*inner, *other->Parenthesized_0)
        },
        ExprView::Variable(identifier) => {
            &&& other is Variable
            &&& other->Variable_0.span.literal == identifier.span.literal
        },
        ExprView::Error(_) => other is Error,
    }
}

/// Whether the parser stops in front of `token` when the floor is `floor`:
/// the token is no operator, or one that binds no more tightly than the
/// floor.
pub open spec fn stops(token: TokenView, floor: nat) -> bool {
    match operator_of(token.kind) {
        None => true,
        Some(kind) => kind.binding() <= floor,
    }
}

/// Whether two tokens read alike: they are of the same kind, and two names
/// are the same name.
pub open spec fn alike(one: TokenView, other: TokenView) -> bool {
    &&& one.kind == other.kind
    &&& one.kind == TokenKind::Id ==> one.span.literal == other.span.literal
}

/// The token `offset` places after `at`.
pub open spec fn token_after(tokens: Seq<TokenView>, at: nat, offset: int) -> TokenView {
    peek(tokens, (at + offset) as nat)
}

/// Whether the `count` tokens from `at` on in `tokens` read like those from
/// `other_at` on in `others`.
pub open spec fn agree(
    tokens: Seq<TokenView>,
    at: nat,
    others: Seq<TokenView>,
    other_at: nat,
    count: nat,
) -> bool {
    forall|offset: int|
        0 <= offset < count ==> alike(
            #[trigger] token_after(tokens, at, offset),
            token_after(others, other_at, offset),
        )
}

/// The parser stops in front of the token that follows what it consumed.
pub proof fn lemma_operators_stop(
    tokens: Seq<TokenView>,
    at: nat,
    left: Parsed<ExprView>,
    floor: nat,
)
    requires
        ends_with_eof(tokens),
    ensures
        stops(peek(tokens, at + parse_operators(tokens, at, left, floor).consumed), floor),
    decreases remaining(tokens, at + left.consumed),
{
    let token = peek(tokens, at + left.consumed);
    match operator_of(token.kind) {
        None => {},
        Some(kind) => {
            if kind.binding() > floor {
                let right = parse_binary(tokens, at + left.consumed + 1, kind.binding());
                lemma_operators_stop(
                    tokens,
                    at,
                    join(left, OperatorView { kind, token }, right),
                    floor,
                );
            }
        },
    }
}

/// A primary expression that was parsed without a diagnostic is parsed
/// again, with the same structure, from any tokens that read alike.
pub proof fn lemma_primary_again(
    tokens: Seq<TokenView>,
    at: nat,
    others: Seq<TokenView>,
    other_at: nat,
)
    requires
        ends_with_eof(tokens),
        ends_with_eof(others),
        parse_primary(tokens, at).diagnostics.len() == 0,
        agree(tokens, at, others, other_at, parse_primary(tokens, at).consumed),
    ensures
        parse_primary(others, other_at).diagnostics.len() == 0,
        parse_primary(others, other_at).consumed == parse_primary(tokens, at).consumed,
        same_shape(parse_primary(tokens, at).node, parse_primary(others, other_at).node),
    decreases remaining(tokens, at), 0nat,
{
    let token = peek(tokens, at);
    assert(token == token_after(tokens, at, 0));
    match token.kind {
        TokenKind::LeftParen => {
            let inner = parse_binary(tokens, at + 1, 0);
            let closing = peek(tokens, at + 1 + inner.consumed);
            assert(closing == token_after(tokens, at, (1 + inner.consumed) as int));
            assert(agree(tokens, at + 1, others, other_at + 1, inner.consumed)) by {
                assert forall|offset: int| 0 <= offset < inner.consumed implies alike(
                    #[trigger] token_after(tokens, at + 1, offset),
                    token_after(others, other_at + 1, offset),
                ) by {
                    assert(token_after(tokens, at + 1, offset) == token_after(
                        tokens,
                        at,
                        offset + 1,
                    ));
                }
            }
            lemma_binary_again(tokens, at + 1, others, other_at + 1, 0);
        },
        _ => {},
    }
}

/// An expression that was parsed without a diagnostic is parsed again, with
/// the same structure, from any tokens that read alike and are followed by
/// a token in front of which the parser stops.
pub proof fn lemma_binary_again(
    tokens: Seq<TokenView>,
    at: nat,
    others: Seq<TokenView>,
    other_at: nat,
    floor: nat,
)
    requires
        ends_with_eof(tokens),
        ends_with_eof(others),
        parse_binary(tokens, at, floor).diagnostics.len() == 0,
        agree(tokens, at, others, other_at, parse_binary(tokens, at, floor).consumed),
        stops(peek(others, other_at + parse_binary(tokens, at, floor).consumed), floor),
    ensures
        parse_binary(others, other_at, floor).diagnostics.len() == 0,
        parse_binary(others, other_at, floor).consumed == parse_binary(tokens, at, floor).consumed,
        same_shape(parse_binary(tokens, at, floor).node, parse_binary(others, other_at, floor).node),
    decreases remaining(tokens, at), 2nat,
{
    let first = parse_primary(tokens, at);
    lemma_operators_keep(tokens, at, first, floor);
    lemma_primary_again(tokens, at, others, other_at);
    lemma_operators_again(tokens, at, first, others, other_at, parse_primary(others, other_at), floor);
}

/// The same, for the continuation of an expression.
pub proof fn lemma_operators_again(
    tokens: Seq<TokenView>,
    at: nat,
    left: Parsed<ExprView>,
    others: Seq<TokenView>,
    other_at: nat,
    other_left: Parsed<ExprView>,
    floor: nat,
)
    requires
        ends_with_eof(tokens),
        ends_with_eof(others),
        other_left.consumed == left.consumed,
        other_left.diagnostics.len() == 0,
        same_shape(left.node, other_left.node),
        parse_operators(tokens, at, left, floor).diagnostics.len() == 0,
        agree(tokens, at, others, other_at, parse_operators(tokens, at, left, floor).consumed),
        stops(
            peek(others, other_at + parse_operators(tokens, at, left, floor).consumed),
            floor,
        ),
    ensures
        parse_operators(others, other_at, other_left, floor).diagnostics.len() == 0,
        parse_operators(others, other_at, other_left, floor).consumed == parse_operators(
            tokens,
            at,
            left,
            floor,
        ).consumed,
        same_shape(
            parse_operators(tokens, at, left, floor).node,
            parse_operators(others, other_at, other_left, floor).node,
        ),
    decreases remaining(tokens, at + left.consumed), 1nat,
{
    let token = peek(tokens, at + left.consumed);
    let other_token = peek(others, other_at + left.consumed);
    let whole = parse_operators(tokens, at, left, floor);
    assert(token == token_after(tokens, at, left.consumed as int));
    match operator_of(token.kind) {
        None => {},
        Some(kind) => {
            if kind.binding() > floor {
                let operator = OperatorView { kind, token };
                let start = at + left.consumed + 1;
                let other_start = other_at + left.consumed + 1;
                let right = parse_binary(tokens, start, kind.binding());
                let joined = join(left, operator, right);
                lemma_operators_keep(tokens, at, joined, floor);
                assert(agree(tokens, start, others, other_start, right.consumed)) by {
                    assert forall|offset: int| 0 <= offset < right.consumed implies alike(
                        #[trigger] token_after(tokens, start, offset),
                        token_after(others, other_start, offset),
                    ) by {
                        assert(token_after(tokens, start, offset) == token_after(
                            tokens,
                            at,
                            left.consumed + 1 + offset,
                        ));
                    }
                }
                assert(stops(peek(others, other_start + right.consumed), kind.binding())) by {
                    if joined.consumed < whole.consumed {
                        lemma_operators_stop(
                            tokens,
                            start,
                            parse_primary(tokens, start),
                            kind.binding(),
                        );
                        assert(peek(tokens, start + right.consumed) == token_after(
                            tokens,
                            at,
                            joined.consumed as int,
                        ));
                    }
                }
                lemma_binary_again(tokens, start, others, other_start, kind.binding());
                let other_right = parse_binary(others, other_start, kind.binding());
                let other_joined = join(
                    other_left,
                    OperatorView { kind, token: other_token },
                    other_right,
                );
                lemma_operators_again(tokens, at, joined, others, other_at, other_joined, floor);
            }
        },
    }
}

/// Whether `expression`, if it is a binary expression, has an operator that
/// binds more tightly than `level`.
pub open spec fn binds_above(expression: ExprView, level: nat) -> bool {
    match expression {
        ExprView::Binary { operator, left, right } => operator.kind.binding() > level,
        _ => true,
    }
}

/// Whether `expression`, if it is a binary expression, has an operator that
/// binds at least as tightly as `level`.
pub open spec fn binds_at_least(expression: ExprView, level: nat) -> bool {
    match expression {
        ExprView::Binary { operator, left, right } => operator.kind.binding() >= level,
        _ => true,
    }
}

/// Whether `expression` is grouped by binding and to the left: the right
/// operand of an operator is a binary expression only if its operator binds
/// more tightly, the left operand only if its operator binds at least as
/// tightly. Parentheses start anew.
pub open spec fn well_grouped(expression: ExprView) -> bool
    decreases expression,
{
    match expression {
        ExprView::Binary { operator, left, right } => {
            &&& well_grouped(*left)
            &&& well_grouped(*right)
            &&& binds_at_least(*left, operator.kind.binding())
            &&& binds_above(*right, operator.kind.binding())
        },
        ExprView::Parenthesized(inner) => well_grouped(*inner),
        _ => true,
    }
}

/// A primary expression is well grouped, and no binary expression.
pub proof fn lemma_primary_is_grouped(tokens: Seq<TokenView>, at: nat)
    requires
        ends_with_eof(tokens),
    ensures
        well_grouped(parse_primary(tokens, at).node),
        !(parse_primary(tokens, at).node is Binary),
    decreases remaining(tokens, at), 0nat,
{
    match peek(tokens, at).kind {
        TokenKind::LeftParen => {
            lemma_binary_is_grouped(tokens, at + 1, 0);
        },
        _ => {},
    }
}

/// Operators take their operands by binding, and operators of equal binding
/// from left to right: whatever the tokens, the tree that is parsed from
/// them is well grouped, and an operator at its top binds more tightly than
/// the floor.
pub proof fn lemma_binary_is_grouped(tokens: Seq<TokenView>, at: nat, floor: nat)
    requires
        ends_with_eof(tokens),
    ensures
        well_grouped(parse_binary(tokens, at, floor).node),
        binds_above(parse_binary(tokens, at, floor).node, floor),
    decreases remaining(tokens, at), 2nat,
{
    lemma_primary_is_grouped(tokens, at);
    lemma_operators_are_grouped(tokens, at, parse_primary(tokens, at), floor);
}

/// The same, for the continuation of an expression.
pub proof fn lemma_operators_are_grouped(
    tokens: Seq<TokenView>,
    at: nat,
    left: Parsed<ExprView>,
    floor: nat,
)
    requires
        ends_with_eof(tokens),
        well_grouped(left.node),
        binds_above(left.node, floor),
        left.node is Binary ==> stops(
            peek(tokens, at + left.consumed),
            left.node->operator.kind.binding(),
        ),
    ensures
        well_grouped(parse_operators(tokens, at, left, floor).node),
        binds_above(parse_operators(tokens, at, left, floor).node, floor),
    decreases remaining(tokens, at + left.consumed), 1nat,
{
    let token = peek(tokens, at + left.consumed);
    match operator_of(token.kind) {
        None => {},
        Some(kind) => {
            if kind.binding() > floor {
                let start = at + left.consumed + 1;
                let right = parse_binary(tokens, start, kind.binding());
                lemma_binary_is_grouped(tokens, start, kind.binding());
                lemma_operators_stop(tokens, start, parse_primary(tokens, start), kind.binding());
                lemma_operators_are_grouped(
                    tokens,
                    at,
                    join(left, OperatorView { kind, token }, right),
                    floor,
                );
            }
        },
    }
}

/// The tokens that write `expression` anew: its kinds in order, the
/// end-of-input token after them. Where in a source they would stand is
/// left open; every span is the placeholder.
pub open spec fn rewritten(expression: ExprView) -> Seq<TokenView> {
    Seq::new(
        kinds_of(expression).len(),
        |index: int|
            TokenView {
                kind: kinds_of(expression)[index],
                span: SpanView::placeholder(),
            },
    ).push(end_of_input())
}

/// Whether `expression` is made of numbers, operators and parentheses
/// alone.
pub open spec fn is_arithmetic(expression: ExprView) -> bool
    decreases expression,
{
    match expression {
        ExprView::Number(_) => true,
        ExprView::Binary { operator, left, right } => is_arithmetic(*left) && is_arithmetic(
            *right,
        ),
        ExprView::Parenthesized(inner) => is_arithmetic(*inner),
        ExprView::Variable(_) => false,
        ExprView::Error(_) => false,
    }
}

/// An arithmetic expression whose operators match their tokens is written
/// without a name.
pub proof fn lemma_no_names(expression: ExprView, index: int)
    requires
        is_arithmetic(expression),
        operators_match(expression),
        0 <= index < kinds_of(expression).len(),
    ensures
        kinds_of(expression)[index] != TokenKind::Id,
    decreases expression,
{
    match expression {
        ExprView::Binary { operator, left, right } => {
            let before = kinds_of(*left).len();
            if index < before {
                lemma_no_names(*left, index);
            } else if index > before {
                lemma_no_names(*right, index - before - 1);
            }
        },
        ExprView::Parenthesized(inner) => {
            if 0 < index < kinds_of(*inner).len() + 1 {
                lemma_no_names(*inner, index - 1);
            }
        },
        _ => {},
    }
}

/// Parsing is idempotent on what it accepts. Let an expression be parsed
/// without a diagnostic, and let it be made of numbers, operators and
/// parentheses alone. Written anew, token for token, and parsed again, it
/// gives no diagnostic and a tree of the same structure.
pub proof fn lemma_parsing_is_idempotent(tokens: Seq<TokenView>, at: nat)
    requires
        ends_with_eof(tokens),
        parse_expression(tokens, at).diagnostics.len() == 0,
        is_arithmetic(parse_expression(tokens, at).node),
    ensures
        parse_expression(rewritten(parse_expression(tokens, at).node), 0).diagnostics.len() == 0,
        same_shape(
            parse_expression(tokens, at).node,
            parse_expression(rewritten(parse_expression(tokens, at).node), 0).node,
        ),
{
    let parsed = parse_expression(tokens, at);
    let others = rewritten(parsed.node);
    lemma_clean_binary(tokens, at, 0);
    assert(agree(tokens, at, others, 0, parsed.consumed)) by {
        assert forall|offset: int| 0 <= offset < parsed.consumed implies alike(
            #[trigger] token_after(tokens, at, offset),
            token_after(others, 0, offset),
        ) by {
            lemma_no_names(parsed.node, offset);
        }
    }
    lemma_binary_again(tokens, at, others, 0, 0);
}

/// Whether two tokens stand at the same place and differ at most in the
/// value of a number.
pub open spec fn similar(one: TokenView, other: TokenView) -> bool {
    &&& one.span == other.span
    &&& one.kind == other.kind || (one.kind is Number && other.kind is Number)
}

/// Whether two token sequences differ at most in the values of their
/// numbers.
pub open spec fn same_up_to_numbers(tokens: Seq<TokenView>, others: Seq<TokenView>) -> bool {
    &&& tokens.len() == others.len()
    &&& forall|index: int| 0 <= index < tokens.len() ==> similar(#[trigger] tokens[index], others[index])
}

/// Tokens at the same place in two such sequences are similar, also past
/// the end.
proof fn lemma_similar_peek(tokens: Seq<TokenView>, others: Seq<TokenView>, at: nat)
    requires
        ends_with_eof(tokens),
        same_up_to_numbers(tokens, others),
    ensures
        similar(peek(tokens, at), peek(others, at)),
        ends_with_eof(others),
{
    if at < tokens.len() {
    }
}

/// What a primary expression consumes and reports does not depend on the
/// values of the numbers.
pub proof fn lemma_primary_ignores_values(
    tokens: Seq<TokenView>,
    others: Seq<TokenView>,
    at: nat,
)
    requires
        ends_with_eof(tokens),
        same_up_to_numbers(tokens, others),
    ensures
        parse_primary(others, at).consumed == parse_primary(tokens, at).consumed,
        parse_primary(others, at).diagnostics == parse_primary(tokens, at).diagnostics,
    decreases remaining(tokens, at), 0nat,
{
    lemma_similar_peek(tokens, others, at);
    let token = peek(tokens, at);
    match token.kind {
        TokenKind::LeftParen => {
            lemma_binary_ignores_values(tokens, others, at + 1, 0);
            let inner = parse_binary(tokens, at + 1, 0);
            lemma_similar_peek(tokens, others, at + 1 + inner.consumed);
        },
        _ => {},
    }
}

/// What an expression consumes and reports does not depend on the values
/// of the numbers.
pub proof fn lemma_binary_ignores_values(
    tokens: Seq<TokenView>,
    others: Seq<TokenView>,
    at: nat,
    floor: nat,
)
    requires
        ends_with_eof(tokens),
        same_up_to_numbers(tokens, others),
    ensures
        parse_binary(others, at, floor).consumed == parse_binary(tokens, at, floor).consumed,
        parse_binary(others, at, floor).diagnostics == parse_binary(tokens, at, floor).diagnostics,
    decreases remaining(tokens, at), 2nat,
{
    lemma_similar_peek(tokens, others, at);
    lemma_primary_ignores_values(tokens, others, at);
    lemma_operators_ignore_values(
        tokens,
        parse_primary(tokens, at),
        others,
        parse_primary(others, at),
        at,
        floor,
    );
}

/// The same, for the continuation of an expression.
pub proof fn lemma_operators_ignore_values(
    tokens: Seq<TokenView>,
    left: Parsed<ExprView>,
    others: Seq<TokenView>,
    other_left: Parsed<ExprView>,
    at: nat,
    floor: nat,
)
    requires
        ends_with_eof(tokens),
        same_up_to_numbers(tokens, others),
        other_left.consumed == left.consumed,
        other_left.diagnostics == left.diagnostics,
    ensures
        parse_operators(others, at, other_left, floor).consumed == parse_operators(
            tokens,
            at,
            left,
            floor,
        ).consumed,
        parse_operators(others, at, other_left, floor).diagnostics == parse_operators(
            tokens,
            at,
            left,
            floor,
        ).diagnostics,
    decreases remaining(tokens, at + left.consumed), 1nat,
{
    lemma_similar_peek(tokens, others, at + left.consumed);
    let token = peek(tokens, at + left.consumed);
    let other_token = peek(others, at + left.consumed);
    match operator_of(token.kind) {
        None => {},
        Some(kind) => {
            if kind.binding() > floor {
                let start = at + left.consumed + 1;
                lemma_binary_ignores_values(tokens, others, start, kind.binding());
                lemma_operators_ignore_values(
                    tokens,
                    join(left, OperatorView { kind, token }, parse_binary(tokens, start, kind.binding())),
                    others,
                    join(
                        other_left,
                        OperatorView { kind, token: other_token },
                        parse_binary(others, start, kind.binding()),
                    ),
                    at,
                    floor,
                );
            }
        },
    }
}

/// What a statement consumes and reports does not depend on the values of
/// the numbers.
pub proof fn lemma_statement_ignores_values(
    tokens: Seq<TokenView>,
    others: Seq<TokenView>,
    at: nat,
)
    requires
        ends_with_eof(tokens),
        same_up_to_numbers(tokens, others),
    ensures
        parse_statement(others, at).consumed == parse_statement(tokens, at).consumed,
        parse_statement(others, at).diagnostics == parse_statement(tokens, at).diagnostics,
{
    lemma_similar_peek(tokens, others, at);
    lemma_similar_peek(tokens, others, at + 1);
    lemma_similar_peek(tokens, others, at + 2);
    lemma_binary_ignores_values(tokens, others, at, 0);
    lemma_binary_ignores_values(tokens, others, at + 3, 0);
}

/// A number is never reported for its value. Two sources that differ only
/// in the values of their numbers get the same diagnostics: a zero where
/// another number would do, the divisor of a division say, is left for the
/// evaluation to find.
pub proof fn lemma_diagnostics_ignore_values(
    tokens: Seq<TokenView>,
    others: Seq<TokenView>,
    at: nat,
)
    requires
        ends_with_eof(tokens),
        same_up_to_numbers(tokens, others),
    ensures
        parse_program(others, at).diagnostics == parse_program(tokens, at).diagnostics,
        parse_program(others, at).node.len() == parse_program(tokens, at).node.len(),
    decreases remaining(tokens, at),
{
    lemma_similar_peek(tokens, others, at);
    if peek(tokens, at).kind != TokenKind::Eof {
        lemma_parsing_consumes(tokens, at, 0);
        lemma_statement_ignores_values(tokens, others, at);
        let first = parse_statement(tokens, at);
        lemma_diagnostics_ignore_values(tokens, others, at + first.consumed);
    }
}

/// A division by the number zero is no matter for the parser. Where a
/// number stands as the divisor of a division, zero in its place changes no
/// diagnostic: what comes of the division is found when it is evaluated.
pub proof fn lemma_zero_divisor_is_no_diagnostic(tokens: Seq<TokenView>, index: int)
    requires
        ends_with_eof(tokens),
        0 < index < tokens.len(),
        tokens[index - 1].kind == TokenKind::Slash,
        tokens[index].kind is Number,
    ensures
        parse_program(
            tokens.update(
                index,
                TokenView { kind: TokenKind::Number(0), span: tokens[index].span },
            ),
            0,
        ).diagnostics == parse_program(tokens, 0).diagnostics,
{
    let others = tokens.update(
        index,
        TokenView { kind: TokenKind::Number(0), span: tokens[index].span },
    );
    assert forall|place: int| 0 <= place < tokens.len() implies similar(
        #[trigger] tokens[place],
        others[place],
    ) by {}
    lemma_diagnostics_ignore_values(tokens, others, 0);
}

/// Whether no statement of `statements` holds an error node.
pub open spec fn program_error_free(statements: Seq<StmtView>) -> bool {
    forall|index: int|
        0 <= index < statements.len() ==> statement_error_free(#[trigger] statements[index])
}

/// A statement that was parsed without a diagnostic holds no error node.
pub proof fn lemma_clean_statement(tokens: Seq<TokenView>, at: nat)
    requires
        ends_with_eof(tokens),
        parse_statement(tokens, at).diagnostics.len() == 0,
    ensures
        statement_error_free(parse_statement(tokens, at).node),
{
    if peek(tokens, at).kind == TokenKind::Let {
        lemma_clean_binary(tokens, at + 3, 0);
    } else {
        lemma_clean_binary(tokens, at, 0);
    }
}

/// Every error node has its diagnostic: a program that was parsed without
/// a diagnostic holds no error node.
pub proof fn lemma_clean_program(tokens: Seq<TokenView>, at: nat)
    requires
        ends_with_eof(tokens),
        parse_program(tokens, at).diagnostics.len() == 0,
    ensures
        program_error_free(parse_program(tokens, at).node),
    decreases remaining(tokens, at),
{
    if peek(tokens, at).kind != TokenKind::Eof {
        lemma_parsing_consumes(tokens, at, 0);
        lemma_clean_statement(tokens, at);
        lemma_clean_program(tokens, at + parse_statement(tokens, at).consumed);
    }
}

} // verus!
