//! The syntax tree and the passes that produce and consume it.

use vstd::prelude::*;
use vstd::string::*;
use crate::ast::lexer::{SpanView, TextSpan, Token, TokenView};
use crate::terminal::{
    light_white, light_white_code, light_yellow, light_yellow_code, magenta, magenta_code,
    reset, reset_code, white, white_code,
};
use crate::text::decimal::{decimal_text, format_integer};

pub mod evaluator;
pub mod lexer;
pub mod lexer_laws;
pub mod parser;
pub mod parser_laws;
pub mod round_trip;

verus! {

/// The four infix operators.
#[derive(Debug, Clone, Copy, PartialEq, Eq, Structural)]
pub enum ASTBinaryOperatorKind {
    Add,
    Subtract,
    Multiply,
    Divide,
}

impl ASTBinaryOperatorKind {
    /// How tightly the operator binds: the additive operators 1, the
    /// multiplicative ones 2.
    pub open spec fn binding(self) -> nat {
        match self {
            ASTBinaryOperatorKind::Add => 1,
            ASTBinaryOperatorKind::Subtract => 1,
            ASTBinaryOperatorKind::Multiply => 2,
            ASTBinaryOperatorKind::Divide => 2,
        }
    }
}

/// The mathematical content of an [`ASTBinaryOperator`].
pub struct OperatorView {
    pub kind: ASTBinaryOperatorKind,
    pub token: TokenView,
}

/// The mathematical content of an [`ASTExpression`].
pub enum ExprView {
    Number(i64),
    Binary { operator: OperatorView, left: Box<ExprView>, right: Box<ExprView> },
    Parenthesized(Box<ExprView>),
    Variable(TokenView),
    Error(SpanView),
}

/// The mathematical content of an [`ASTStatement`].
pub enum StmtView {
    Expression(ExprView),
    Let { identifier: TokenView, initializer: ExprView },
}

/// An infix operator and the token it was read from.
#[derive(Debug)]
pub struct ASTBinaryOperator {
    pub kind: ASTBinaryOperatorKind,
    pub token: Token,
}

impl View for ASTBinaryOperator {
    type V = OperatorView;

    open spec fn view(&self) -> OperatorView {
        OperatorView { kind: self.kind, token: self.token@ }
    }
}

impl ASTBinaryOperator {
    pub fn new(kind: ASTBinaryOperatorKind, token: Token) -> (operator: Self)
        ensures
            operator@ == (OperatorView { kind, token: token@ }),
    {
        Self { kind, token }
    }

    pub fn precedence(&self) -> (precedence: u8)
        ensures
            precedence == self@.kind.binding(),
    {
        match self.kind {
            ASTBinaryOperatorKind::Add => 1,
            ASTBinaryOperatorKind::Subtract => 1,
            ASTBinaryOperatorKind::Multiply => 2,
            ASTBinaryOperatorKind::Divide => 2,
        }
    }
}

/// An integer literal.
#[derive(Debug)]
pub struct ASTNumberExpression {
    pub number: i64,
}

/// Two operands joined by an operator.
#[derive(Debug)]
pub struct ASTBinaryExpression {
    pub left: Box<ASTExpression>,
    pub right: Box<ASTExpression>,
    pub operator: ASTBinaryOperator,
}

/// An expression in parentheses.
#[derive(Debug)]
pub struct ASTParenthesizedExpression {
    pub expression: Box<ASTExpression>,
}

/// A reference to a variable.
#[derive(Debug)]
pub struct ASTVariableExpression {
    pub identifier: Token,
}

#[derive(Debug)]
pub enum ASTExpressionKind {
    Number(ASTNumberExpression),
    Binary(ASTBinaryExpression),
    Parenthesized(ASTParenthesizedExpression),
    Variable(ASTVariableExpression),
    /// Stands where an expression was expected and none was found.
    Error(TextSpan),
}

#[derive(Debug)]
pub struct ASTExpression {
    pub kind: ASTExpressionKind,
}

/// The content of `expression`, by recursion over the tree.
pub open spec fn expression_view(expression: &ASTExpression) -> ExprView
    decreases expression,
{
    match expression.kind {
        ASTExpressionKind::Number(number) => ExprView::Number(number.number),
        ASTExpressionKind::Binary(binary) => ExprView::Binary {
            operator: binary.operator@,
            left: Box::new(expression_view(&*binary.left)),
            right: Box::new(expression_view(&*binary.right)),
        },
        ASTExpressionKind::Parenthesized(inner) => ExprView::Parenthesized(
            Box::new(expression_view(&*inner.expression)),
        ),
        ASTExpressionKind::Variable(variable) => ExprView::Variable(variable.identifier@),
        ASTExpressionKind::Error(span) => ExprView::Error(span@),
    }
}

impl View for ASTExpression {
    type V = ExprView;

    open spec fn view(&self) -> ExprView {
        expression_view(self)
    }
}

impl View for ASTNumberExpression {
    type V = ExprView;

    open spec fn view(&self) -> ExprView {
        ExprView::Number(self.number)
    }
}

impl View for ASTBinaryExpression {
    type V = ExprView;

    open spec fn view(&self) -> ExprView {
        ExprView::Binary {
            operator: self.operator@,
            left: Box::new(expression_view(&*self.left)),
            right: Box::new(expression_view(&*self.right)),
        }
    }
}

impl View for ASTParenthesizedExpression {
    type V = ExprView;

    open spec fn view(&self) -> ExprView {
        ExprView::Parenthesized(Box::new(expression_view(&*self.expression)))
    }
}

impl View for ASTVariableExpression {
    type V = ExprView;

    open spec fn view(&self) -> ExprView {
        ExprView::Variable(self.identifier@)
    }
}

impl ASTVariableExpression {
    /// The name of the variable.
    pub fn identifier(&self) -> (name: &str)
        ensures
            name@ == self.identifier@.span.literal,
    {
        self.identifier.span.literal.as_str()
    }
}

impl ASTExpression {
    pub fn new(kind: ASTExpressionKind) -> (expression: Self)
        ensures
            expression.kind == kind,
    {
        Self { kind }
    }

    pub fn number(number: i64) -> (expression: Self)
        ensures
            expression@ == ExprView::Number(number),
    {
        Self::new(ASTExpressionKind::Number(ASTNumberExpression { number }))
    }

    pub fn error(span: TextSpan) -> (expression: Self)
        ensures
            expression@ == ExprView::Error(span@),
    {
        Self::new(ASTExpressionKind::Error(span))
    }

    pub fn binary(operator: ASTBinaryOperator, left: ASTExpression, right: ASTExpression) -> (expression: Self)
        ensures
            expression@ == (ExprView::Binary {
                operator: operator@,
                left: Box::new(left@),
                right: Box::new(right@),
            }),
    {
        Self::new(
            ASTExpressionKind::Binary(
                ASTBinaryExpression { left: Box::new(left), right: Box::new(right), operator },
            ),
        )
    }

    pub fn parenthesized(expr: ASTExpression) -> (expression: Self)
        ensures
            expression@ == ExprView::Parenthesized(Box::new(expr@)),
    {
        Self::new(
            ASTExpressionKind::Parenthesized(
                ASTParenthesizedExpression { expression: Box::new(expr) },
            ),
        )
    }

    pub fn identifier(identifier: Token) -> (expression: Self)
        ensures
            expression@ == ExprView::Variable(identifier@),
    {
        Self::new(ASTExpressionKind::Variable(ASTVariableExpression { identifier }))
    }
}

/// A binding of a name to the value of an expression.
#[derive(Debug)]
pub struct ASTLetStatement {
    pub identifier: Token,
    pub initializer: ASTExpression,
}

impl View for ASTLetStatement {
    type V = StmtView;

    open spec fn view(&self) -> StmtView {
        StmtView::Let { identifier: self.identifier@, initializer: self.initializer@ }
    }
}

#[derive(Debug)]
pub enum ASTStatementKind {
    Expression(ASTExpression),
    LetStatement(ASTLetStatement),
}

#[derive(Debug)]
pub struct ASTStatement {
    pub kind: ASTStatementKind,
}

impl View for ASTStatement {
    type V = StmtView;

    open spec fn view(&self) -> StmtView {
        match self.kind {
            ASTStatementKind::Expression(expression) => StmtView::Expression(expression@),
            ASTStatementKind::LetStatement(statement) => statement@,
        }
    }
}

impl ASTStatement {
    pub fn new(kind: ASTStatementKind) -> (statement: Self)
        ensures
            statement.kind == kind,
    {
        Self { kind }
    }

    pub fn expression(expr: ASTExpression) -> (statement: Self)
        ensures
            statement@ == StmtView::Expression(expr@),
    {
        Self::new(ASTStatementKind::Expression(expr))
    }

    pub fn let_statement(identifier: Token, initializer: ASTExpression) -> (statement: Self)
        ensures
            statement@ == (StmtView::Let { identifier: identifier@, initializer: initializer@ }),
    {
        Self::new(ASTStatementKind::LetStatement(ASTLetStatement { identifier, initializer }))
    }
}

/// A consumer of the tree. For each kind of node there is a method that
/// visits it; the two `effect` functions say what a visit does to the
/// consumer, and every method is held to them.
pub trait ASTVisitor: Sized {
    /// Whether visiting `expression` can take the consumer from `self` to
    /// `after`.
    spec fn expression_effect(&self, expression: ExprView, after: &Self) -> bool;

    /// Whether visiting `statement` can take the consumer from `self` to
    /// `after`.
    spec fn statement_effect(&self, statement: StmtView, after: &Self) -> bool;

    /// Routes a statement to the method for its kind.
    fn do_visit_statement(&mut self, stmt: &ASTStatement)
        ensures
            old(self).statement_effect(stmt@, final(self)),
    ;

    fn visit_let_statement(&mut self, let_statement: &ASTLetStatement)
        ensures
            old(self).statement_effect(let_statement@, final(self)),
    ;

    fn visit_statement(&mut self, stmt: &ASTStatement)
        ensures
            old(self).statement_effect(stmt@, final(self)),
    ;

    /// Routes an expression to the method for its kind.
    fn do_visit_expression(&mut self, expr: &ASTExpression)
        ensures
            old(self).expression_effect(expr@, final(self)),
    ;

    fn visit_expression(&mut self, expr: &ASTExpression)
        ensures
            old(self).expression_effect(expr@, final(self)),
    ;

    fn visit_binary_expression(&mut self, binary_expr: &ASTBinaryExpression)
        ensures
            old(self).expression_effect(binary_expr@, final(self)),
    ;

    fn visit_parenthesized_expression(&mut self, expr: &ASTParenthesizedExpression)
        ensures
            old(self).expression_effect(expr@, final(self)),
    ;

    fn visit_error(&mut self, span: &TextSpan)
        ensures
            old(self).expression_effect(ExprView::Error(span@), final(self)),
    ;

    fn visit_number_expression(&mut self, number: &ASTNumberExpression)
        ensures
            old(self).expression_effect(number@, final(self)),
    ;

    fn visit_variable_expression(&mut self, variable_expression: &ASTVariableExpression)
        ensures
            old(self).expression_effect(variable_expression@, final(self)),
    ;
}

/// Whether visiting `statements` one after the other can take a consumer
/// from `before` to `after`.
pub open spec fn program_effect<V: ASTVisitor>(
    before: &V,
    statements: Seq<StmtView>,
    after: &V,
) -> bool
    decreases statements.len(),
{
    if statements.len() == 0 {
        after == before
    } else {
        exists|middle: V|
            program_effect(before, statements.drop_last(), &middle)
                && #[trigger] middle.statement_effect(statements.last(), after)
    }
}

/// A program: its statements in source order.
#[derive(Debug)]
pub struct Ast {
    pub statements: Vec<ASTStatement>,
}

impl View for Ast {
    type V = Seq<StmtView>;

    open spec fn view(&self) -> Seq<StmtView> {
        self.statements@.map_values(|statement: ASTStatement| statement@)
    }
}

impl Ast {
    pub fn new() -> (ast: Self)
        ensures
            ast@ == Seq::<StmtView>::empty(),
    {
        let ast = Self { statements: Vec::new() };
        ast
    }

    pub fn add_statement(&mut self, statement: ASTStatement)
        ensures
            final(self)@ == old(self)@.push(statement@),
    {
        self.statements.push(statement);
    }

    /// Has `visitor` visit the statements in order.
    pub fn visit<V: ASTVisitor>(&self, visitor: &mut V)
        ensures
            program_effect(old(visitor), self@, final(visitor)),
    {
        let count = self.statements.len();
        let mut done: usize = 0;
        while done < count
            invariant
                count == self.statements.len(),
                done <= count,
                program_effect(old(visitor), self@.take(done as int), visitor),
            decreases count - done,
        {
            let ghost middle = *visitor;
            visitor.visit_statement(&self.statements[done]);
            proof {
                let next = self@.take(done + 1);
                assert(next.drop_last() =~= self@.take(done as int));
                assert(middle.statement_effect(next.last(), visitor));
            }
            done += 1;
        }
        assert(self@.take(count as int) =~= self@);
    }
}

/// The escape sequences that a rendering is coloured with.
pub struct Palette {
    /// Switches on the colour of numbers.
    pub number: Seq<char>,
    /// Switches on the colour of keywords.
    pub keyword: Seq<char>,
    /// Switches on the colour of operators, parentheses and names that are
    /// being bound.
    pub text: Seq<char>,
    /// Switches on the colour of variables.
    pub variable: Seq<char>,
    /// Switches the colour off again.
    pub reset: Seq<char>,
}

impl Palette {
    /// The colours of the printer: numbers in light yellow, keywords in
    /// magenta, variables in white, the rest in light white.
    pub open spec fn terminal() -> Palette {
        Palette {
            number: light_yellow_code(),
            keyword: magenta_code(),
            text: light_white_code(),
            variable: white_code(),
            reset: reset_code(),
        }
    }

    /// No colours at all: what is left of a rendering when its escape
    /// sequences are taken out.
    pub open spec fn plain() -> Palette {
        Palette {
            number: Seq::empty(),
            keyword: Seq::empty(),
            text: Seq::empty(),
            variable: Seq::empty(),
            reset: Seq::empty(),
        }
    }

    /// `value` in the colour that `color` switches on, the colour switched
    /// off after it.
    pub open spec fn paint(self, color: Seq<char>, value: Seq<char>) -> Seq<char> {
        color + value + self.reset
    }
}

/// `expression` written out in the colours of `palette`: a number in
/// decimal, a blank on either side of an operator, no blank inside
/// parentheses.
pub open spec fn write_expression(palette: Palette, expression: ExprView) -> Seq<char>
    decreases expression,
{
    match expression {
        ExprView::Number(number) => palette.paint(palette.number, decimal_text(number as int)),
        ExprView::Binary { operator, left, right } => write_expression(palette, *left) + " "@
            + palette.paint(palette.text, operator.token.span.literal) + " "@ + write_expression(
            palette,
            *right,
        ),
        ExprView::Parenthesized(inner) => palette.paint(palette.text, "("@) + write_expression(
            palette,
            *inner,
        ) + palette.paint(palette.text, ")"@),
        ExprView::Variable(identifier) => palette.paint(
            palette.variable,
            identifier.span.literal,
        ),
        ExprView::Error(span) => palette.paint(palette.text, span.literal),
    }
}

/// `statement` written out in the colours of `palette`. A `let` is written
/// with a blank between its parts and a line feed after it; an expression is
/// written as it is.
pub open spec fn write_statement(palette: Palette, statement: StmtView) -> Seq<char> {
    match statement {
        StmtView::Expression(expression) => write_expression(palette, expression),
        StmtView::Let { identifier, initializer } => palette.paint(palette.keyword, "let"@) + " "@
            + palette.paint(palette.text, identifier.span.literal) + " "@ + palette.paint(
            palette.text,
            "="@,
        ) + " "@ + write_expression(palette, initializer) + "\n"@,
    }
}

/// How the printer writes `expression`.
pub open spec fn render_expression(expression: ExprView) -> Seq<char> {
    write_expression(Palette::terminal(), expression)
}

/// How the printer writes `statement`.
pub open spec fn render_statement(statement: StmtView) -> Seq<char> {
    write_statement(Palette::terminal(), statement)
}

/// How the printer writes `statements`, one after the other.
pub open spec fn render_program(statements: Seq<StmtView>) -> Seq<char>
    decreases statements.len(),
{
    if statements.len() == 0 {
        Seq::empty()
    } else {
        render_program(statements.drop_last()) + render_statement(statements.last())
    }
}

/// A consumer of the tree that writes it out as coloured text.
#[derive(Debug)]
pub struct ASTPrinter {
    pub indent: usize,
    pub result: String,
}

impl ASTPrinter {
    pub fn new() -> (printer: Self)
        ensures
            printer.indent == 0,
            printer.result@ == Seq::<char>::empty(),
    {
        Self { indent: 0, result: String::new() }
    }

    /// Whether `self` is `before` with `text` written after what was there.
    pub open spec fn wrote(&self, before: &Self, text: Seq<char>) -> bool {
        &&& self.indent == before.indent
        &&& self.result@ == before.result@ + text
    }

    fn add_whitespace(&mut self)
        ensures
            final(self).wrote(old(self), " "@),
    {
        self.result.append(" ");
    }

    fn add_newline(&mut self)
        ensures
            final(self).wrote(old(self), "\n"@),
    {
        self.result.append("\n");
    }

    fn add_number(&mut self, number: i64)
        ensures
            final(self).wrote(
                old(self),
                Palette::terminal().paint(light_yellow_code(), decimal_text(number as int)),
            ),
    {
        let mut string = light_yellow().to_owned();
        string.append(format_integer(number).as_str());
        string.append(reset());
        self.result.append(string.as_str());
    }

    fn add_color(&mut self, value: &str, color: &str)
        ensures
            final(self).wrote(old(self), Palette::terminal().paint(color@, value@)),
    {
        let mut string = color.to_owned();
        string.append(value);
        string.append(reset());
        self.result.append(string.as_str());
    }

    fn add_text(&mut self, text: &str)
        ensures
            final(self).wrote(old(self), Palette::terminal().paint(light_white_code(), text@)),
    {
        self.add_color(text, light_white())
    }

    fn add_keyword(&mut self, word: &str)
        ensures
            final(self).wrote(old(self), Palette::terminal().paint(magenta_code(), word@)),
    {
        self.add_color(word, magenta())
    }
}

impl ASTVisitor for ASTPrinter {
    open spec fn expression_effect(&self, expression: ExprView, after: &Self) -> bool {
        after.wrote(self, render_expression(expression))
    }

    open spec fn statement_effect(&self, statement: StmtView, after: &Self) -> bool {
        after.wrote(self, render_statement(statement))
    }

    fn do_visit_statement(&mut self, stmt: &ASTStatement) {
        match &stmt.kind {
            ASTStatementKind::Expression(expr) => {
                self.visit_expression(expr);
            },
            ASTStatementKind::LetStatement(expr) => {
                self.visit_let_statement(expr);
            },
        }
    }

    fn visit_let_statement(&mut self, let_statement: &ASTLetStatement) {
        self.add_keyword("let");
        self.add_whitespace();
        self.add_text(let_statement.identifier.span.literal.as_str());
        self.add_whitespace();
        self.add_text("=");
        self.add_whitespace();
        self.visit_expression(&let_statement.initializer);
        self.add_newline();
        assert(self.result@ =~= old(self).result@ + render_statement(let_statement@));
    }

    fn visit_statement(&mut self, stmt: &ASTStatement) {
        self.do_visit_statement(stmt)
    }

    fn do_visit_expression(&mut self, expr: &ASTExpression)
        decreases expr, 0nat,
    {
        match &expr.kind {
            ASTExpressionKind::Number(number) => self.visit_number_expression(number),
            ASTExpressionKind::Binary(expr) => self.visit_binary_expression(expr),
            ASTExpressionKind::Parenthesized(expr) => self.visit_parenthesized_expression(expr),
            ASTExpressionKind::Variable(expr) => self.visit_variable_expression(expr),
            ASTExpressionKind::Error(span) => self.visit_error(span),
        }
    }

    fn visit_expression(&mut self, expr: &ASTExpression)
        decreases expr, 1nat,
    {
        self.do_visit_expression(expr)
    }

    fn visit_binary_expression(&mut self, binary_expr: &ASTBinaryExpression)
        decreases binary_expr, 0nat,
    {
        self.visit_expression(&binary_expr.left);
        self.add_whitespace();
        self.add_text(binary_expr.operator.token.span.literal.as_str());
        self.add_whitespace();
        self.visit_expression(&binary_expr.right);
        assert(self.result@ =~= old(self).result@ + render_expression(binary_expr@));
    }

    fn visit_parenthesized_expression(&mut self, expr: &ASTParenthesizedExpression)
        decreases expr, 0nat,
    {
        self.add_text("(");
        self.visit_expression(&expr.expression);
        self.add_text(")");
        assert(self.result@ =~= old(self).result@ + render_expression(expr@));
    }

    fn visit_error(&mut self, span: &TextSpan) {
        self.add_text(span.literal.as_str())
    }

    fn visit_number_expression(&mut self, number: &ASTNumberExpression) {
        self.add_number(number.number)
    }

    fn visit_variable_expression(&mut self, variable_expression: &ASTVariableExpression) {
        self.add_color(variable_expression.identifier(), white())
    }
}

/// Visiting a program with a printer writes the statements one after the
/// other.
pub proof fn lemma_printer_effect(before: &ASTPrinter, statements: Seq<StmtView>, after: &ASTPrinter)
    requires
        program_effect(before, statements, after),
    ensures
        after.wrote(before, render_program(statements)),
    decreases statements.len(),
{
    if statements.len() > 0 {
        let middle = choose|middle: ASTPrinter|
            program_effect(before, statements.drop_last(), &middle)
                && #[trigger] middle.statement_effect(statements.last(), after);
        lemma_printer_effect(before, statements.drop_last(), &middle);
        assert(after.result@ =~= before.result@ + render_program(statements));
    }
}

impl Ast {
    /// The program as the printer writes it.
    pub fn visualize(&self) -> (text: String)
        ensures
            text@ == render_program(self@),
    {
        let mut printer = ASTPrinter::new();
        let ghost before = printer;
        self.visit(&mut printer);
        proof {
            lemma_printer_effect(&before, self@, &printer);
        }
        printer.result
    }
}

} // verus!
