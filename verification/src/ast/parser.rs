//! The parser: from tokens to statements, by precedence climbing.
//!
//! The grammar, as a function on token sequences, comes first; the parser
//! that follows is held to it, token for token and diagnostic for
//! diagnostic.

use vstd::prelude::*;
use crate::ast::lexer::{Token, TokenKind, TokenView};
use crate::ast::{
    ASTBinaryOperator, ASTBinaryOperatorKind, ASTExpression, ASTStatement, ExprView,
    OperatorView, StmtView,
};
use crate::diagnostics::{expected_expression, unexpected_token, DiagnosticView, DiagnosticsBag};

verus! {

/// The contents of `tokens`.
pub open spec fn token_views(tokens: Seq<Token>) -> Seq<TokenView> {
    tokens.map_values(|token: Token| token@)
}

/// Whether `token` is anything but whitespace.
pub open spec fn is_significant(token: TokenView) -> bool {
    token.kind != TokenKind::Whitespace
}

/// The predicate that tells the other tokens from whitespace.
pub open spec fn significant() -> spec_fn(TokenView) -> bool {
    |token: TokenView| is_significant(token)
}

/// `tokens` without the whitespace tokens.
pub open spec fn without_whitespace(tokens: Seq<TokenView>) -> Seq<TokenView> {
    tokens.filter(significant())
}

/// Whether `tokens` is not empty and its last token marks the end of the
/// input.
pub open spec fn ends_with_eof(tokens: Seq<TokenView>) -> bool {
    tokens.len() > 0 && tokens.last().kind == TokenKind::Eof
}

/// Leaving out the whitespace keeps the end-of-input token last.
pub proof fn lemma_significant_end_with_eof(tokens: Seq<TokenView>)
    requires
        ends_with_eof(tokens),
    ensures
        ends_with_eof(without_whitespace(tokens)),
{
    reveal(Seq::filter);
}

/// The token at `at`; past the end, the last token.
pub open spec fn peek(tokens: Seq<TokenView>, at: nat) -> TokenView {
    if at < tokens.len() {
        tokens[at as int]
    } else {
        tokens.last()
    }
}

/// How many tokens stand at `at` or after it.
pub open spec fn remaining(tokens: Seq<TokenView>, at: nat) -> nat {
    if at < tokens.len() {
        (tokens.len() - at) as nat
    } else {
        0
    }
}

/// Where a cursor at `at` stands after `count` more tokens: it stops at the
/// end.
pub open spec fn advance(tokens: Seq<TokenView>, at: nat, count: nat) -> nat {
    if at + count < tokens.len() {
        at + count
    } else {
        tokens.len()
    }
}

/// The operator that a token of kind `kind` stands for, if any.
pub open spec fn operator_of(kind: TokenKind) -> Option<ASTBinaryOperatorKind> {
    match kind {
        TokenKind::Plus => Some(ASTBinaryOperatorKind::Add),
        TokenKind::Minus => Some(ASTBinaryOperatorKind::Subtract),
        TokenKind::Asterisk => Some(ASTBinaryOperatorKind::Multiply),
        TokenKind::Slash => Some(ASTBinaryOperatorKind::Divide),
        _ => None,
    }
}

/// What is reported when `token` stands where a token of kind `expected` is
/// asked for: nothing if it is of that kind, else one error.
pub open spec fn expect(expected: TokenKind, token: TokenView) -> Seq<DiagnosticView> {
    if token.kind == expected {
        Seq::empty()
    } else {
        seq![unexpected_token(expected, token)]
    }
}

/// What parsing yields: a node, the number of tokens it took, and the
/// diagnostics reported on the way. Past the end of the tokens the last
/// token is taken again, and counted again, each time one is asked for.
pub struct Parsed<T> {
    pub node: T,
    pub consumed: nat,
    pub diagnostics: Seq<DiagnosticView>,
}

/// A primary expression at `at`: a number, a variable, or an expression in
/// parentheses. Any other token is reported and becomes an error node. A
/// missing closing parenthesis is reported, and the token in its place is
/// taken all the same.
pub open spec fn parse_primary(tokens: Seq<TokenView>, at: nat) -> Parsed<ExprView>
    decreases remaining(tokens, at), 0nat,
    when ends_with_eof(tokens)
{
    let token = peek(tokens, at);
    match token.kind {
        TokenKind::Number(number) => Parsed {
            node: ExprView::Number(number),
            consumed: 1,
            diagnostics: Seq::empty(),
        },
        TokenKind::LeftParen => {
            let inner = parse_binary(tokens, at + 1, 0);
            let closing = peek(tokens, at + 1 + inner.consumed);
            Parsed {
                node: ExprView::Parenthesized(Box::new(inner.node)),
                consumed: inner.consumed + 2,
                diagnostics: inner.diagnostics + expect(TokenKind::RightParen, closing),
            }
        },
        TokenKind::Id => Parsed {
            node: ExprView::Variable(token),
            consumed: 1,
            diagnostics: Seq::empty(),
        },
        _ => Parsed {
            node: ExprView::Error(token.span),
            consumed: 1,
            diagnostics: seq![expected_expression(token)],
        },
    }
}

/// An expression at `at` whose operators all bind more tightly than `floor`.
pub open spec fn parse_binary(tokens: Seq<TokenView>, at: nat, floor: nat) -> Parsed<ExprView>
    decreases remaining(tokens, at), 2nat,
    when ends_with_eof(tokens)
{
    parse_operators(tokens, at, parse_primary(tokens, at), floor)
}

/// Continues an expression that started at `at` and reads `left` so far.
/// While the next token is an operator that binds more tightly than `floor`,
/// the operator is taken, its right operand is parsed with the operator's
/// own binding as the floor, and the two operands are joined into the new
/// left operand. Operators of equal binding therefore group to the left.
pub open spec fn parse_operators(
    tokens: Seq<TokenView>,
    at: nat,
    left: Parsed<ExprView>,
    floor: nat,
) -> Parsed<ExprView>
    decreases remaining(tokens, at + left.consumed), 1nat,
    when ends_with_eof(tokens)
{
    let token = peek(tokens, at + left.consumed);
    match operator_of(token.kind) {
        None => left,
        Some(kind) => {
            if kind.binding() <= floor {
                left
            } else {
                let right = parse_binary(tokens, at + left.consumed + 1, kind.binding());
                parse_operators(tokens, at, join(left, OperatorView { kind, token }, right), floor)
            }
        },
    }
}

/// Two parsed operands and the operator between them, as one parsed
/// expression.
pub open spec fn join(
    left: Parsed<ExprView>,
    operator: OperatorView,
    right: Parsed<ExprView>,
) -> Parsed<ExprView> {
    Parsed {
        node: ExprView::Binary {
            operator,
            left: Box::new(left.node),
            right: Box::new(right.node),
        },
        consumed: left.consumed + 1 + right.consumed,
        diagnostics: left.diagnostics + right.diagnostics,
    }
}

/// A whole expression at `at`.
pub open spec fn parse_expression(tokens: Seq<TokenView>, at: nat) -> Parsed<ExprView> {
    parse_binary(tokens, at, 0)
}

/// A statement at `at`: after `let`, a name, `=` and an expression; else an
/// expression. A token that is not the name or the `=` asked for is
/// reported and taken in its place.
pub open spec fn parse_statement(tokens: Seq<TokenView>, at: nat) -> Parsed<StmtView> {
    if peek(tokens, at).kind == TokenKind::Let {
        let identifier = peek(tokens, at + 1);
        let equals = peek(tokens, at + 2);
        let initializer = parse_expression(tokens, at + 3);
        Parsed {
            node: StmtView::Let { identifier, initializer: initializer.node },
            consumed: 3 + initializer.consumed,
            diagnostics: expect(TokenKind::Id, identifier) + expect(TokenKind::Equals, equals)
                + initializer.diagnostics,
        }
    } else {
        let expression = parse_expression(tokens, at);
        Parsed {
            node: StmtView::Expression(expression.node),
            consumed: expression.consumed,
            diagnostics: expression.diagnostics,
        }
    }
}

/// Parsing takes at least one token.
pub proof fn lemma_parsing_consumes(tokens: Seq<TokenView>, at: nat, floor: nat)
    requires
        ends_with_eof(tokens),
    ensures
        parse_primary(tokens, at).consumed >= 1,
        parse_binary(tokens, at, floor).consumed >= 1,
        parse_statement(tokens, at).consumed >= 1,
{
    lemma_operators_keep(tokens, at, parse_primary(tokens, at), floor);
    lemma_operators_keep(tokens, at, parse_primary(tokens, at), 0);
    lemma_operators_keep(tokens, at + 3, parse_primary(tokens, at + 3), 0);
}

/// Continuing an expression drops no diagnostic and gives no token back.
pub proof fn lemma_operators_keep(
    tokens: Seq<TokenView>,
    at: nat,
    left: Parsed<ExprView>,
    floor: nat,
)
    requires
        ends_with_eof(tokens),
    ensures
        parse_operators(tokens, at, left, floor).diagnostics.len() >= left.diagnostics.len(),
        parse_operators(tokens, at, left, floor).consumed >= left.consumed,
    decreases remaining(tokens, at + left.consumed),
{
    let token = peek(tokens, at + left.consumed);
    match operator_of(token.kind) {
        None => {},
        Some(kind) => {
            if kind.binding() > floor {
                let right = parse_binary(tokens, at + left.consumed + 1, kind.binding());
                lemma_operators_keep(
                    tokens,
                    at,
                    join(left, OperatorView { kind, token }, right),
                    floor,
                );
            }
        },
    }
}

/// The statements from `at` up to the end of the input.
pub open spec fn parse_program(tokens: Seq<TokenView>, at: nat) -> Parsed<Seq<StmtView>>
    decreases remaining(tokens, at),
    when ends_with_eof(tokens)
{
    if peek(tokens, at).kind == TokenKind::Eof {
        Parsed { node: Seq::empty(), consumed: 0, diagnostics: Seq::empty() }
    } else {
        proof {
            lemma_parsing_consumes(tokens, at, 0);
        }
        let first = parse_statement(tokens, at);
        let rest = parse_program(tokens, at + first.consumed);
        Parsed {
            node: seq![first.node] + rest.node,
            consumed: first.consumed + rest.consumed,
            diagnostics: first.diagnostics + rest.diagnostics,
        }
    }
}

/// From the last token on, it makes no difference where the cursor stands.
pub proof fn lemma_past_the_end(tokens: Seq<TokenView>, at: nat, other: nat, floor: nat)
    requires
        ends_with_eof(tokens),
        at + 1 >= tokens.len(),
        other + 1 >= tokens.len(),
    ensures
        parse_primary(tokens, at) == parse_primary(tokens, other),
        parse_binary(tokens, at, floor) == parse_binary(tokens, other, floor),
{
}

/// Whether `tokens`, their whitespace left out, are not empty and end with
/// the end-of-input token: whether a parser can be made over them.
pub fn is_terminated(tokens: &Vec<Token>) -> (terminated: bool)
    ensures
        terminated == ends_with_eof(without_whitespace(token_views(tokens@))),
{
    let ghost all = token_views(tokens@);
    let mut index: usize = tokens.len();
    assert(all.take(index as int) =~= all);
    while index > 0
        invariant
            index <= tokens.len(),
            all == token_views(tokens@),
            without_whitespace(all) == without_whitespace(all.take(index as int)),
        decreases index,
    {
        let ghost front = all.take(index as int);
        proof {
            reveal(Seq::filter);
            assert(front.drop_last() =~= all.take(index - 1));
        }
        if tokens[index - 1].kind != TokenKind::Whitespace {
            return tokens[index - 1].kind == TokenKind::Eof;
        }
        index -= 1;
    }
    proof {
        reveal(Seq::filter);
    }
    false
}

/// A parser over a token sequence that ends with the end-of-input token.
/// It owns the bag into which it reports.
pub struct Parser {
    tokens: Vec<Token>,
    current: usize,
    diagnostics_bag: DiagnosticsBag,
}

impl Parser {
    /// The tokens being parsed, whitespace left out.
    pub closed spec fn tokens(&self) -> Seq<TokenView> {
        token_views(self.tokens@)
    }

    /// The index of the token under the cursor.
    pub closed spec fn position(&self) -> nat {
        self.current as nat
    }

    /// The diagnostics in the bag.
    pub closed spec fn reported(&self) -> Seq<DiagnosticView> {
        self.diagnostics_bag@
    }

    /// The tokens end with the end-of-input token, and the cursor is not
    /// beyond them.
    pub open spec fn well_formed(&self) -> bool {
        &&& ends_with_eof(self.tokens())
        &&& self.position() <= self.tokens().len()
    }

    /// Whether `self` is what `before` becomes by parsing `parsed`: the
    /// cursor has moved over what was consumed, and the diagnostics have
    /// been added to the bag.
    pub open spec fn follows<T>(&self, before: &Parser, parsed: Parsed<T>) -> bool {
        &&& self.tokens() == before.tokens()
        &&& self.position() == advance(before.tokens(), before.position(), parsed.consumed)
        &&& self.reported() == before.reported() + parsed.diagnostics
    }

    /// Whether `self` and `before` differ in nothing.
    pub open spec fn unchanged(&self, before: &Parser) -> bool {
        &&& self.tokens() == before.tokens()
        &&& self.position() == before.position()
        &&& self.reported() == before.reported()
    }

    /// A parser over `tokens` without their whitespace, reporting into
    /// `diagnostics_bag`.
    pub fn new(tokens: Vec<Token>, diagnostics_bag: DiagnosticsBag) -> (parser: Self)
        requires
            ends_with_eof(without_whitespace(token_views(tokens@))),
        ensures
            parser.well_formed(),
            parser.tokens() == without_whitespace(token_views(tokens@)),
            parser.position() == 0,
            parser.reported() == diagnostics_bag@,
    {
        let mut kept: Vec<Token> = Vec::new();
        let mut index: usize = 0;
        assert(token_views(kept@) =~= without_whitespace(token_views(tokens@.take(0)))) by {
            reveal(Seq::filter);
        }
        while index < tokens.len()
            invariant
                index <= tokens.len(),
                token_views(kept@) == without_whitespace(token_views(tokens@.take(index as int))),
            decreases tokens.len() - index,
        {
            let ghost before = token_views(tokens@.take(index as int));
            let ghost after = token_views(tokens@.take(index + 1));
            proof {
                reveal(Seq::filter);
                assert(after.drop_last() =~= before);
            }
            if tokens[index].kind != TokenKind::Whitespace {
                let token = tokens[index].clone();
                kept.push(token);
            }
            index += 1;
        }
        assert(tokens@.take(tokens.len() as int) =~= tokens@);
        Self { tokens: kept, current: 0, diagnostics_bag }
    }

    /// The bag with what has been reported so far.
    pub fn diagnostics(&self) -> (bag: &DiagnosticsBag)
        ensures
            bag@ == self.reported(),
    {
        &self.diagnostics_bag
    }

    /// Gives the bag back.
    pub fn into_diagnostics(self) -> (bag: DiagnosticsBag)
        ensures
            bag@ == self.reported(),
    {
        self.diagnostics_bag
    }

    /// The next statement, or `None` at the end of the input.
    pub fn next_statement(&mut self) -> (statement: Option<ASTStatement>)
        requires
            old(self).well_formed(),
        ensures
            final(self).well_formed(),
            match statement {
                Some(statement) => {
                    let parsed = parse_statement(old(self).tokens(), old(self).position());
                    &&& peek(old(self).tokens(), old(self).position()).kind != TokenKind::Eof
                    &&& final(self).follows(old(self), parsed)
                    &&& statement@ == parsed.node
                },
                None => {
                    &&& peek(old(self).tokens(), old(self).position()).kind == TokenKind::Eof
                    &&& final(self).unchanged(old(self))
                },
            },
    {
        if self.is_at_end() {
            return None;
        }
        Some(self.parse_statement())
    }

    fn is_at_end(&self) -> (at_end: bool)
        requires
            self.well_formed(),
        ensures
            at_end == (peek(self.tokens(), self.position()).kind == TokenKind::Eof),
    {
        self.current().kind == TokenKind::Eof
    }

    fn parse_statement(&mut self) -> (statement: ASTStatement)
        requires
            old(self).well_formed(),
        ensures
            final(self).well_formed(),
            final(self).follows(
                old(self),
                parse_statement(old(self).tokens(), old(self).position()),
            ),
            statement@ == parse_statement(old(self).tokens(), old(self).position()).node,
    {
        if self.current().kind == TokenKind::Let {
            self.parse_let_statement()
        } else {
            let expr = self.parse_expression();
            ASTStatement::expression(expr)
        }
    }

    fn parse_let_statement(&mut self) -> (statement: ASTStatement)
        requires
            old(self).well_formed(),
            peek(old(self).tokens(), old(self).position()).kind == TokenKind::Let,
        ensures
            final(self).well_formed(),
            final(self).follows(
                old(self),
                parse_statement(old(self).tokens(), old(self).position()),
            ),
            statement@ == parse_statement(old(self).tokens(), old(self).position()).node,
    {
        let ghost tokens = self.tokens();
        let ghost at = self.position();
        self.consume_and_check(TokenKind::Let);
        let identifier = self.consume_and_check(TokenKind::Id);
        self.consume_and_check(TokenKind::Equals);
        proof {
            if at + 3 > tokens.len() {
                lemma_past_the_end(tokens, self.position(), at + 3, 0);
            }
        }
        let expr = self.parse_expression();
        proof {
            assert(self.reported() =~= old(self).reported() + parse_statement(
                tokens,
                at,
            ).diagnostics);
        }
        ASTStatement::let_statement(identifier, expr)
    }

    fn parse_expression(&mut self) -> (expression: ASTExpression)
        requires
            old(self).well_formed(),
        ensures
            final(self).well_formed(),
            final(self).follows(
                old(self),
                parse_expression(old(self).tokens(), old(self).position()),
            ),
            expression@ == parse_expression(old(self).tokens(), old(self).position()).node,
        decreases remaining(old(self).tokens(), old(self).position()), 3nat,
    {
        self.parse_binary_expression(0)
    }

    fn parse_binary_expression(&mut self, precedence: u8) -> (expression: ASTExpression)
        requires
            old(self).well_formed(),
        ensures
            final(self).well_formed(),
            final(self).follows(
                old(self),
                parse_binary(old(self).tokens(), old(self).position(), precedence as nat),
            ),
            expression@ == parse_binary(
                old(self).tokens(),
                old(self).position(),
                precedence as nat,
            ).node,
        decreases remaining(old(self).tokens(), old(self).position()), 2nat,
    {
        let ghost tokens = self.tokens();
        let ghost start = self.position();
        let ghost before = self.reported();
        let ghost floor = precedence as nat;
        let mut left = self.parse_primary_expression();
        let ghost mut so_far = parse_primary(tokens, start);
        proof {
            lemma_parsing_consumes(tokens, start, floor);
        }
        loop
            invariant
                self.well_formed(),
                self.tokens() == tokens,
                start < tokens.len() || start == tokens.len(),
                so_far.consumed >= 1,
                so_far.node == left@,
                self.position() == advance(tokens, start, so_far.consumed),
                self.reported() == before + so_far.diagnostics,
                parse_operators(tokens, start, so_far, floor) == parse_binary(
                    tokens,
                    start,
                    floor,
                ),
                floor == precedence,
                tokens == old(self).tokens(),
                start == old(self).position(),
            ensures
                so_far == parse_binary(tokens, start, floor),
            decreases remaining(tokens, self.position()),
        {
            let operator = match self.parse_operator() {
                Some(operator) => operator,
                None => {
                    break ;
                },
            };
            let operator_precedence = operator.precedence();
            if operator_precedence <= precedence {
                break ;
            }
            let ghost at = self.position();
            self.consume();
            let right = self.parse_binary_expression(operator_precedence);
            proof {
                so_far = join(
                    so_far,
                    operator@,
                    parse_binary(tokens, at + 1, operator@.kind.binding()),
                );
            }
            left = ASTExpression::binary(operator, left, right);
        }
        left
    }

    /// The operator under the cursor, if there is one. The cursor stays.
    fn parse_operator(&self) -> (operator: Option<ASTBinaryOperator>)
        requires
            self.well_formed(),
        ensures
            match operator {
                Some(operator) => {
                    &&& operator_of(peek(self.tokens(), self.position()).kind) == Some(
                        operator@.kind,
                    )
                    &&& operator@.token == peek(self.tokens(), self.position())
                },
                None => operator_of(peek(self.tokens(), self.position()).kind) is None,
            },
    {
        let token = self.current();
        let kind = match token.kind {
            TokenKind::Plus => Some(ASTBinaryOperatorKind::Add),
            TokenKind::Minus => Some(ASTBinaryOperatorKind::Subtract),
            TokenKind::Asterisk => Some(ASTBinaryOperatorKind::Multiply),
            TokenKind::Slash => Some(ASTBinaryOperatorKind::Divide),
            _ => None,
        };
        match kind {
            Some(kind) => Some(ASTBinaryOperator::new(kind, token.clone())),
            None => None,
        }
    }

    fn parse_primary_expression(&mut self) -> (expression: ASTExpression)
        requires
            old(self).well_formed(),
        ensures
            final(self).well_formed(),
            final(self).follows(
                old(self),
                parse_primary(old(self).tokens(), old(self).position()),
            ),
            expression@ == parse_primary(old(self).tokens(), old(self).position()).node,
        decreases remaining(old(self).tokens(), old(self).position()), 0nat,
    {
        let ghost tokens = self.tokens();
        let ghost at = self.position();
        let token = self.consume();
        match token.kind {
            TokenKind::Number(number) => ASTExpression::number(number),
            TokenKind::LeftParen => {
                let expr = self.parse_expression();
                self.consume_and_check(TokenKind::RightParen);
                assert(self.reported() =~= old(self).reported() + parse_primary(
                    tokens,
                    at,
                ).diagnostics);
                ASTExpression::parenthesized(expr)
            },
            TokenKind::Id => ASTExpression::identifier(token),
            _ => {
                self.diagnostics_bag.report_expected_expression(&token);
                assert(self.reported() =~= old(self).reported() + seq![
                    expected_expression(token@),
                ]);
                ASTExpression::error(token.span.clone())
            },
        }
    }

    /// The token `offset` places after the cursor; past the end, the last
    /// token.
    fn peek(&self, offset: usize) -> (token: &Token)
        requires
            self.well_formed(),
        ensures
            token@ == peek(self.tokens(), self.position() + offset as nat),
    {
        let mut index = self.current.saturating_add(offset);
        if index >= self.tokens.len() {
            index = self.tokens.len() - 1;
        }
        &self.tokens[index]
    }

    fn current(&self) -> (token: &Token)
        requires
            self.well_formed(),
        ensures
            token@ == peek(self.tokens(), self.position()),
    {
        self.peek(0)
    }

    /// Hands out the token under the cursor and moves the cursor past it.
    fn consume(&mut self) -> (token: Token)
        requires
            old(self).well_formed(),
        ensures
            final(self).well_formed(),
            final(self).tokens() == old(self).tokens(),
            final(self).reported() == old(self).reported(),
            final(self).position() == advance(old(self).tokens(), old(self).position(), 1),
            token@ == peek(old(self).tokens(), old(self).position()),
    {
        let token = self.current().clone();
        if self.current < self.tokens.len() {
            self.current += 1;
        }
        token
    }

    /// Hands out the token under the cursor and moves past it; reports it if
    /// it is not of kind `kind`.
    fn consume_and_check(&mut self, kind: TokenKind) -> (token: Token)
        requires
            old(self).well_formed(),
        ensures
            final(self).well_formed(),
            final(self).tokens() == old(self).tokens(),
            final(self).reported() == old(self).reported() + expect(kind, token@),
            final(self).position() == advance(old(self).tokens(), old(self).position(), 1),
            token@ == peek(old(self).tokens(), old(self).position()),
    {
        let token = self.consume();
        if token.kind != kind {
            self.diagnostics_bag.report_unexpected_token(&kind, &token);
        }
        token
    }
}

} // verus!
