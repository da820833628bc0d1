use exprlang::ast::lexer::{TextSpan, Token, TokenKind};
use exprlang::ast::{ASTExpression, ASTExpressionKind, ASTPrinter, ASTStatementKind, ASTVisitor, Ast};
use exprlang::pipeline::{parse, tokenize};

const NUMBER: &str = "\u{1b}[38;5;11m";
const KEYWORD: &str = "\u{1b}[38;5;5m";
const TEXT: &str = "\u{1b}[38;5;15m";
const VARIABLE: &str = "\u{1b}[38;5;7m";
const RESET: &str = "\u{1b}[39m";

fn tree(source: &str) -> Ast {
    let (ast, bag) = parse(tokenize(source));
    assert!(bag.is_empty());
    ast
}

/// `text` without its escape sequences.
fn without_colors(text: &str) -> String {
    let mut plain = String::new();
    let mut inside = false;
    for c in text.chars() {
        if inside {
            if c == 'm' {
                inside = false;
            }
        } else if c == '\u{1b}' {
            inside = true;
        } else {
            plain.push(c);
        }
    }
    plain
}

/// The structure of an expression, without the places of its tokens.
fn shape(expression: &ASTExpression) -> String {
    match &expression.kind {
        ASTExpressionKind::Number(number) => number.number.to_string(),
        ASTExpressionKind::Binary(binary) => {
            format!("[{} {:?} {}]", shape(&binary.left), binary.operator.kind, shape(&binary.right))
        }
        ASTExpressionKind::Parenthesized(inner) => format!("({})", shape(&inner.expression)),
        ASTExpressionKind::Variable(variable) => variable.identifier().to_string(),
        ASTExpressionKind::Error(_) => "<error>".to_string(),
    }
}

fn expression_shapes(ast: &Ast) -> Vec<String> {
    ast.statements
        .iter()
        .map(|statement| match &statement.kind {
            ASTStatementKind::Expression(expression) => shape(expression),
            ASTStatementKind::LetStatement(binding) => shape(&binding.initializer),
        })
        .collect()
}

#[test]
fn a_number_is_written_in_light_yellow() {
    assert_eq!(tree("42").visualize(), format!("{NUMBER}42{RESET}"));
    assert_eq!(tree("007").visualize(), format!("{NUMBER}7{RESET}"));
}

#[test]
fn a_number_that_wrapped_around_is_written_with_its_sign() {
    assert_eq!(tree("9223372036854775808").visualize(), format!("{NUMBER}-9223372036854775808{RESET}"));
    assert_eq!(tree("18446744073709551615").visualize(), format!("{NUMBER}-1{RESET}"));
}

#[test]
fn an_operator_stands_between_blanks() {
    assert_eq!(
        tree("1+2").visualize(),
        format!("{NUMBER}1{RESET} {TEXT}+{RESET} {NUMBER}2{RESET}")
    );
}

#[test]
fn parentheses_stand_without_blanks() {
    assert_eq!(
        tree("( 1 )*x").visualize(),
        format!("{TEXT}({RESET}{NUMBER}1{RESET}{TEXT}){RESET} {TEXT}*{RESET} {VARIABLE}x{RESET}")
    );
}

#[test]
fn a_let_statement_takes_a_line() {
    assert_eq!(
        tree("let x=5").visualize(),
        format!("{KEYWORD}let{RESET} {TEXT}x{RESET} {TEXT}={RESET} {NUMBER}5{RESET}\n")
    );
}

#[test]
fn statements_are_written_one_after_the_other() {
    assert_eq!(
        tree("let x = 1 x 2").visualize(),
        format!("{KEYWORD}let{RESET} {TEXT}x{RESET} {TEXT}={RESET} {NUMBER}1{RESET}\n{VARIABLE}x{RESET}{NUMBER}2{RESET}")
    );
    assert_eq!(tree("").visualize(), "");
}

#[test]
fn an_error_node_is_written_as_the_text_it_stands_for() {
    let (ast, bag) = parse(tokenize("1 + &"));
    assert_eq!(bag.len(), 1);
    assert_eq!(ast.visualize(), format!("{NUMBER}1{RESET} {TEXT}+{RESET} {TEXT}&{RESET}"));
}

#[test]
fn the_printer_writes_after_what_is_there() {
    let mut printer = ASTPrinter::new();
    assert_eq!(printer.result, "");
    assert_eq!(printer.indent, 0);
    printer.visit_expression(&ASTExpression::number(1));
    printer.visit_expression(&ASTExpression::parenthesized(ASTExpression::number(2)));
    printer.visit_error(&TextSpan::new(0, 1, "?".to_string()));
    printer.visit_expression(&ASTExpression::identifier(Token::new(
        TokenKind::Id,
        TextSpan::new(0, 1, "v".to_string()),
    )));
    assert_eq!(
        printer.result,
        format!("{NUMBER}1{RESET}{TEXT}({RESET}{NUMBER}2{RESET}{TEXT}){RESET}{TEXT}?{RESET}{VARIABLE}v{RESET}")
    );
    assert_eq!(printer.indent, 0);
}

#[test]
fn what_is_printed_parses_back_to_the_same_tree() {
    for source in [
        "1+2*3",
        "(1+2)*3",
        "10-3-2",
        "1/0",
        "((1))",
        "2*(3-(4+5))/6",
        "1 - (2 - 3) - 4",
        "8/4/2*3+1",
        "9223372036854775807",
        "0",
    ] {
        let first = tree(source);
        let printed = without_colors(&first.visualize());
        let again = tree(&printed);
        assert_eq!(expression_shapes(&again), expression_shapes(&first));
        assert_eq!(without_colors(&again.visualize()), printed);
    }
}

#[test]
fn printing_is_the_same_for_sources_that_differ_in_whitespace() {
    assert_eq!(tree("1+2*(3)").visualize(), tree(" 1 +  2\n*\t( 3 ) ").visualize());
    assert_eq!(without_colors(&tree("1+2*(3)").visualize()), "1 + 2 * (3)");
}
