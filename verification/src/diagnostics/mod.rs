//! Diagnostics: problems found in the source, each with the place where it
//! was found, collected without stopping the pass that found them.

use vstd::prelude::*;
use vstd::string::*;
use crate::ast::lexer::{SpanView, TextSpan, Token, TokenKind, TokenView};

pub mod printer;

verus! {

/// How severe a diagnostic is.
#[derive(Debug, Clone, Copy, PartialEq, Eq, Structural)]
pub enum DiagnosticsKind {
    Error,
    Warning,
}

/// The mathematical content of a [`Diagnostics`].
pub struct DiagnosticView {
    pub message: Seq<char>,
    pub span: SpanView,
    pub kind: DiagnosticsKind,
}

/// One reported problem.
#[derive(Debug)]
pub struct Diagnostics {
    pub message: String,
    pub span: TextSpan,
    pub kind: DiagnosticsKind,
}

impl View for Diagnostics {
    type V = DiagnosticView;

    open spec fn view(&self) -> DiagnosticView {
        DiagnosticView { message: self.message@, span: self.span@, kind: self.kind }
    }
}

impl Diagnostics {
    pub fn new(message: String, span: TextSpan, kind: DiagnosticsKind) -> (diagnostic: Self)
        ensures
            diagnostic@ == (DiagnosticView { message: message@, span: span@, kind }),
    {
        Self { message, span, kind }
    }
}

/// The message for a token that is not the one the grammar asks for.
pub open spec fn unexpected_token_message(expected: TokenKind, found: TokenKind) -> Seq<char> {
    "Expected "@ + expected.name() + " | Found "@ + found.name()
}

/// The message for a token that cannot start an expression.
pub open spec fn expected_expression_message(found: TokenKind) -> Seq<char> {
    "Expected Expression | Found "@ + found.name()
}

/// The error that reports `token` where `expected` was asked for.
pub open spec fn unexpected_token(expected: TokenKind, token: TokenView) -> DiagnosticView {
    DiagnosticView {
        message: unexpected_token_message(expected, token.kind),
        span: token.span,
        kind: DiagnosticsKind::Error,
    }
}

/// The error that reports `token` where an expression should start.
pub open spec fn expected_expression(token: TokenView) -> DiagnosticView {
    DiagnosticView {
        message: expected_expression_message(token.kind),
        span: token.span,
        kind: DiagnosticsKind::Error,
    }
}

/// An ordered collection of diagnostics that only grows.
#[derive(Debug)]
pub struct DiagnosticsBag {
    pub diagnostics: Vec<Diagnostics>,
}

impl View for DiagnosticsBag {
    type V = Seq<DiagnosticView>;

    open spec fn view(&self) -> Seq<DiagnosticView> {
        self.diagnostics@.map_values(|d: Diagnostics| d@)
    }
}

impl DiagnosticsBag {
    pub fn new() -> (bag: Self)
        ensures
            bag@ == Seq::<DiagnosticView>::empty(),
    {
        let bag = Self { diagnostics: Vec::new() };
        bag
    }

    /// Appends `diagnostic`.
    fn push(&mut self, diagnostic: Diagnostics)
        ensures
            final(self)@ == old(self)@.push(diagnostic@),
    {
        self.diagnostics.push(diagnostic);
    }

    /// Whether nothing has been reported.
    pub fn is_empty(&self) -> (empty: bool)
        ensures
            empty == (self@.len() == 0),
    {
        self.diagnostics.len() == 0
    }

    /// The number of diagnostics reported.
    pub fn len(&self) -> (count: usize)
        ensures
            count == self@.len(),
    {
        self.diagnostics.len()
    }

    pub fn report_error(&mut self, message: String, span: TextSpan)
        ensures
            final(self)@ == old(self)@.push(
                DiagnosticView { message: message@, span: span@, kind: DiagnosticsKind::Error },
            ),
    {
        let error = Diagnostics::new(message, span, DiagnosticsKind::Error);
        self.push(error)
    }

    pub fn report_warning(&mut self, message: String, span: TextSpan)
        ensures
            final(self)@ == old(self)@.push(
                DiagnosticView { message: message@, span: span@, kind: DiagnosticsKind::Warning },
            ),
    {
        let warn = Diagnostics::new(message, span, DiagnosticsKind::Warning);
        self.push(warn)
    }

    pub fn report_unexpected_token(&mut self, expected: &TokenKind, token: &Token)
        ensures
            final(self)@ == old(self)@.push(unexpected_token(*expected, token@)),
    {
        let mut message = "Expected ".to_owned();
        message.append(expected.to_string().as_str());
        message.append(" | Found ");
        message.append(token.kind.to_string().as_str());
        self.report_error(message, token.span.clone())
    }

    pub fn report_expected_expression(&mut self, token: &Token)
        ensures
            final(self)@ == old(self)@.push(expected_expression(token@)),
    {
        let mut message = "Expected Expression | Found ".to_owned();
        message.append(token.kind.to_string().as_str());
        self.report_error(message, token.span.clone())
    }
}

} // verus!
