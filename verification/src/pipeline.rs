//! The passes in a row: from source text to tokens, to a tree, to a value.

use vstd::prelude::*;
use crate::ast::evaluator::{evaluate, lemma_error_free_program, EvalError, EvalState};
use crate::ast::lexer::{Lexer, Token, TokenKind, TokenView};
use crate::ast::lexer_laws::lemma_tokens_end_with_eof;
use crate::ast::parser::{
    ends_with_eof, lemma_parsing_consumes, lemma_significant_end_with_eof, parse_program,
    parse_statement, peek, remaining, token_views, without_whitespace, Parser,
};
use crate::ast::parser_laws::lemma_clean_program;
use crate::ast::{Ast, StmtView};
use crate::diagnostics::{DiagnosticView, DiagnosticsBag};

verus! {

/// The tokens of `source` that the parser sees: all but the whitespace.
pub open spec fn significant_tokens(source: Seq<char>) -> Seq<TokenView> {
    without_whitespace(crate::ast::lexer::tokenize(source))
}

/// All tokens of `input`, whitespace included, the end-of-input token last.
pub fn tokenize(input: &str) -> (tokens: Vec<Token>)
    ensures
        token_views(tokens@) == crate::ast::lexer::tokenize(input@),
        ends_with_eof(without_whitespace(token_views(tokens@))),
{
    let mut lexer = Lexer::new(input);
    let mut tokens: Vec<Token> = Vec::new();
    loop
        invariant
            lexer.well_formed(),
            token_views(tokens@) + lexer.remaining() == crate::ast::lexer::tokenize(input@),
        ensures
            token_views(tokens@) == crate::ast::lexer::tokenize(input@),
        decreases lexer.remaining().len(),
    {
        match lexer.next_token() {
            Some(token) => {
                tokens.push(token);
            },
            None => {
                break ;
            },
        }
    }
    proof {
        lemma_tokens_end_with_eof(input@, 0);
        lemma_significant_end_with_eof(token_views(tokens@));
    }
    tokens
}

/// At the end of the input the rest of the program is empty, wherever the
/// cursor stands.
proof fn lemma_program_at_end(tokens: Seq<TokenView>, at: nat)
    requires
        ends_with_eof(tokens),
        peek(tokens, at).kind == TokenKind::Eof,
    ensures
        parse_program(tokens, at).node == Seq::<StmtView>::empty(),
        parse_program(tokens, at).diagnostics == Seq::<DiagnosticView>::empty(),
{
}

/// Parses `tokens` to the end: the statements in order, and the bag with
/// what was reported.
pub fn parse(tokens: Vec<Token>) -> (parsed: (Ast, DiagnosticsBag))
    requires
        ends_with_eof(without_whitespace(token_views(tokens@))),
    ensures
        parsed.0@ == parse_program(without_whitespace(token_views(tokens@)), 0).node,
        parsed.1@ == parse_program(without_whitespace(token_views(tokens@)), 0).diagnostics,
{
    let ghost significant = without_whitespace(token_views(tokens@));
    let mut ast = Ast::new();
    let mut parser = Parser::new(tokens, DiagnosticsBag::new());
    loop
        invariant
            parser.well_formed(),
            parser.tokens() == significant,
            ast@ + parse_program(significant, parser.position()).node == parse_program(
                significant,
                0,
            ).node,
            parser.reported() + parse_program(significant, parser.position()).diagnostics
                == parse_program(significant, 0).diagnostics,
        ensures
            ast@ == parse_program(significant, 0).node,
            parser.reported() == parse_program(significant, 0).diagnostics,
        decreases remaining(significant, parser.position()),
    {
        let ghost at = parser.position();
        match parser.next_statement() {
            Some(statement) => {
                ast.add_statement(statement);
                proof {
                    lemma_parsing_consumes(significant, at, 0);
                    let next = at + parse_statement(significant, at).consumed;
                    if next > significant.len() {
                        lemma_program_at_end(significant, next);
                        lemma_program_at_end(significant, parser.position());
                    }
                }
            },
            None => {
                proof {
                    lemma_program_at_end(significant, at);
                }
                break ;
            },
        }
    }
    (ast, parser.into_diagnostics())
}

/// How running a source text ends.
#[derive(Debug)]
pub enum Outcome {
    /// Parsing reported diagnostics; nothing was evaluated.
    Rejected(DiagnosticsBag),
    /// Parsing reported nothing, and the evaluation failed.
    Failed(EvalError),
    /// Parsing reported nothing; the value of the last statement, if the
    /// program has a statement.
    Evaluated(Option<i64>),
}

/// Scans, parses and evaluates `source`. If parsing reports anything, the
/// diagnostics are the result and nothing is evaluated.
pub fn interpret(source: &str) -> (outcome: Outcome)
    ensures
        ({
            let program = parse_program(significant_tokens(source@), 0);
            match outcome {
                Outcome::Rejected(bag) => bag@.len() > 0 && bag@ == program.diagnostics,
                Outcome::Failed(error) => {
                    &&& program.diagnostics.len() == 0
                    &&& error != EvalError::ErrorNode
                    &&& EvalState::initial().after_program(program.node).outcome() == Err::<
                        Option<i64>,
                        EvalError,
                    >(error)
                },
                Outcome::Evaluated(value) => {
                    &&& program.diagnostics.len() == 0
                    &&& EvalState::initial().after_program(program.node).outcome() == Ok::<
                        Option<i64>,
                        EvalError,
                    >(value)
                },
            }
        }),
{
    let tokens = tokenize(source);
    let (ast, bag) = parse(tokens);
    if !bag.is_empty() {
        return Outcome::Rejected(bag);
    }
    proof {
        lemma_clean_program(significant_tokens(source@), 0);
        lemma_error_free_program(EvalState::initial(), ast@);
    }
    match evaluate(&ast) {
        Ok(value) => Outcome::Evaluated(value),
        Err(error) => Outcome::Failed(error),
    }
}

} // verus!
