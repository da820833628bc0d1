use exprlang::ast::lexer::{TextSpan, Token, TokenKind};
use exprlang::ast::parser::{is_terminated, Parser};
use exprlang::ast::{ASTBinaryOperatorKind, ASTExpression, ASTExpressionKind, ASTStatementKind, Ast};
use exprlang::diagnostics::{DiagnosticsBag, DiagnosticsKind};
use exprlang::pipeline::{parse, tokenize};

/// The structure of an expression, written with a pair of brackets around
/// every binary expression.
fn shape(expression: &ASTExpression) -> String {
    match &expression.kind {
        ASTExpressionKind::Number(number) => number.number.to_string(),
        ASTExpressionKind::Binary(binary) => {
            let symbol = match binary.operator.kind {
                ASTBinaryOperatorKind::Add => "+",
                ASTBinaryOperatorKind::Subtract => "-",
                ASTBinaryOperatorKind::Multiply => "*",
                ASTBinaryOperatorKind::Divide => "/",
            };
            format!("[{} {} {}]", shape(&binary.left), symbol, shape(&binary.right))
        }
        ASTExpressionKind::Parenthesized(inner) => format!("({})", shape(&inner.expression)),
        ASTExpressionKind::Variable(variable) => variable.identifier().to_string(),
        ASTExpressionKind::Error(span) => format!("<error {}..{}>", span.start, span.end),
    }
}

fn shapes(ast: &Ast) -> Vec<String> {
    ast.statements
        .iter()
        .map(|statement| match &statement.kind {
            ASTStatementKind::Expression(expression) => shape(expression),
            ASTStatementKind::LetStatement(binding) => {
                format!("let {} = {}", binding.identifier.span.literal, shape(&binding.initializer))
            }
        })
        .collect()
}

fn parsed(source: &str) -> (Vec<String>, Vec<String>) {
    let (ast, bag) = parse(tokenize(source));
    let messages = bag.diagnostics.iter().map(|diagnostic| diagnostic.message.clone()).collect();
    (shapes(&ast), messages)
}

fn clean(source: &str) -> Vec<String> {
    let (shapes, messages) = parsed(source);
    assert_eq!(messages, Vec::<String>::new());
    shapes
}

#[test]
fn a_number_is_an_expression() {
    assert_eq!(clean("42"), vec!["42"]);
}

#[test]
fn multiplication_and_division_bind_tighter() {
    assert_eq!(clean("1+2*3"), vec!["[1 + [2 * 3]]"]);
    assert_eq!(clean("1*2+3"), vec!["[[1 * 2] + 3]"]);
    assert_eq!(clean("1-6/3"), vec!["[1 - [6 / 3]]"]);
    assert_eq!(clean("1*2+3*4"), vec!["[[1 * 2] + [3 * 4]]"]);
    assert_eq!(clean("1+2*3+4"), vec!["[[1 + [2 * 3]] + 4]"]);
}

#[test]
fn operators_of_equal_binding_group_to_the_left() {
    assert_eq!(clean("10-3-2"), vec!["[[10 - 3] - 2]"]);
    assert_eq!(clean("1+2-3+4"), vec!["[[[1 + 2] - 3] + 4]"]);
    assert_eq!(clean("8/4/2"), vec!["[[8 / 4] / 2]"]);
    assert_eq!(clean("8/4*2"), vec!["[[8 / 4] * 2]"]);
}

#[test]
fn parentheses_are_kept_in_the_tree() {
    assert_eq!(clean("(1+2)*3"), vec!["[([1 + 2]) * 3]"]);
    assert_eq!(clean("((7))"), vec!["((7))"]);
    assert_eq!(clean("2*(3-(4+5))"), vec!["[2 * ([3 - ([4 + 5])])]"]);
}

#[test]
fn a_name_is_a_variable() {
    assert_eq!(clean("x"), vec!["x"]);
    assert_eq!(clean("x*y+1"), vec!["[[x * y] + 1]"]);
}

#[test]
fn statements_follow_each_other_without_a_separator() {
    assert_eq!(clean("1 2 3"), vec!["1", "2", "3"]);
    assert_eq!(clean("1+2 (3) x"), vec!["[1 + 2]", "(3)", "x"]);
    assert_eq!(clean(""), Vec::<String>::new());
}

#[test]
fn a_let_statement_binds_a_name() {
    assert_eq!(clean("let x = 5"), vec!["let x = 5"]);
    assert_eq!(clean("let total = 1 + 2 * 3 total"), vec!["let total = [1 + [2 * 3]]", "total"]);
}

#[test]
fn whitespace_makes_no_difference() {
    assert_eq!(clean(" 1\t+\n2 "), clean("1+2"));
}

#[test]
fn a_token_that_starts_no_expression_becomes_an_error_node() {
    let (shapes, messages) = parsed("1 + 1 & 0");
    assert_eq!(shapes, vec!["[1 + 1]", "<error 6..7>", "0"]);
    assert_eq!(messages, vec!["Expected Expression | Found Bad"]);
    let (shapes, messages) = parsed("1 + * 2");
    assert_eq!(shapes, vec!["[1 + <error 4..5>]", "2"]);
    assert_eq!(messages, vec!["Expected Expression | Found *"]);
    let (shapes, messages) = parsed(")");
    assert_eq!(shapes, vec!["<error 0..1>"]);
    assert_eq!(messages, vec!["Expected Expression | Found )"]);
    let (shapes, messages) = parsed("=");
    assert_eq!(shapes, vec!["<error 0..1>"]);
    assert_eq!(messages, vec!["Expected Expression | Found ="]);
}

#[test]
fn an_operator_at_the_end_finds_the_end_of_input() {
    let (shapes, messages) = parsed("1 +");
    assert_eq!(shapes, vec!["[1 + <error 0..0>]"]);
    assert_eq!(messages, vec!["Expected Expression | Found Eof"]);
}

#[test]
fn a_missing_closing_parenthesis_is_reported_and_parsing_goes_on() {
    let (shapes, messages) = parsed("(1+2");
    assert_eq!(shapes, vec!["([1 + 2])"]);
    assert_eq!(messages, vec!["Expected ) | Found Eof"]);
    let (shapes, messages) = parsed("(1 2) 3");
    assert_eq!(shapes, vec!["(1)", "<error 4..5>", "3"]);
    assert_eq!(messages, vec!["Expected ) | Found Number", "Expected Expression | Found )"]);
    let (shapes, messages) = parsed("((1");
    assert_eq!(shapes, vec!["((1))"]);
    assert_eq!(messages, vec!["Expected ) | Found Eof", "Expected ) | Found Eof"]);
}

#[test]
fn a_let_statement_reports_what_is_missing_and_takes_what_is_there() {
    let (shapes, messages) = parsed("let 5 = 3");
    assert_eq!(shapes, vec!["let 5 = 3"]);
    assert_eq!(messages, vec!["Expected Identifier | Found Number"]);
    let (shapes, messages) = parsed("let x 3");
    assert_eq!(shapes, vec!["let x = <error 0..0>"]);
    assert_eq!(messages, vec!["Expected = | Found Number", "Expected Expression | Found Eof"]);
    let (shapes, messages) = parsed("let");
    assert_eq!(shapes, vec!["let  = <error 0..0>"]);
    assert_eq!(
        messages,
        vec!["Expected Identifier | Found Eof", "Expected = | Found Eof", "Expected Expression | Found Eof"]
    );
    let (shapes, messages) = parsed("let let = 1");
    assert_eq!(shapes, vec!["let let = 1"]);
    assert_eq!(messages, vec!["Expected Identifier | Found Let"]);
}

#[test]
fn diagnostics_are_errors_at_the_place_of_the_token() {
    let (_, bag) = parse(tokenize("12 + \u{e9} & 7"));
    assert_eq!(bag.len(), 1);
    assert!(!bag.is_empty());
    assert_eq!(bag.diagnostics[0].kind, DiagnosticsKind::Error);
    assert_eq!(bag.diagnostics[0].span, TextSpan::new(8, 9, "&".to_string()));
}

#[test]
fn the_parser_hands_out_one_statement_per_call() {
    let tokens = tokenize("1 + 2 let x = 3");
    assert!(is_terminated(&tokens));
    let mut parser = Parser::new(tokens, DiagnosticsBag::new());
    let first = parser.next_statement().unwrap();
    assert!(matches!(first.kind, ASTStatementKind::Expression(_)));
    let second = parser.next_statement().unwrap();
    assert!(matches!(second.kind, ASTStatementKind::LetStatement(_)));
    assert!(parser.next_statement().is_none());
    assert!(parser.next_statement().is_none());
    assert!(parser.diagnostics().is_empty());
    assert_eq!(parser.into_diagnostics().len(), 0);
}

#[test]
fn the_parser_keeps_what_was_in_the_bag() {
    let mut bag = DiagnosticsBag::new();
    bag.report_warning("earlier".to_string(), TextSpan::new(0, 0, String::new()));
    let mut parser = Parser::new(tokenize("+"), bag);
    assert!(parser.next_statement().is_some());
    assert!(parser.next_statement().is_none());
    let bag = parser.into_diagnostics();
    assert_eq!(bag.len(), 2);
    assert_eq!(bag.diagnostics[0].message, "earlier");
    assert_eq!(bag.diagnostics[0].kind, DiagnosticsKind::Warning);
    assert_eq!(bag.diagnostics[1].message, "Expected Expression | Found +");
}

#[test]
fn tokens_are_terminated_when_the_end_of_input_is_the_last_but_whitespace() {
    let token = |kind| Token::new(kind, TextSpan::new(0, 0, String::new()));
    assert!(!is_terminated(&vec![]));
    assert!(!is_terminated(&vec![token(TokenKind::Whitespace)]));
    assert!(!is_terminated(&vec![token(TokenKind::Number(1))]));
    assert!(!is_terminated(&vec![token(TokenKind::Eof), token(TokenKind::Number(1))]));
    assert!(is_terminated(&vec![token(TokenKind::Eof)]));
    assert!(is_terminated(&vec![token(TokenKind::Number(1)), token(TokenKind::Eof), token(TokenKind::Whitespace)]));
    assert!(is_terminated(&tokenize("")));
}

#[test]
fn a_parser_over_handmade_tokens_reads_them_alike() {
    let token = |kind, text: &str| Token::new(kind, TextSpan::new(0, text.len(), text.to_string()));
    let tokens = vec![
        token(TokenKind::Number(2), "2"),
        token(TokenKind::Whitespace, " "),
        token(TokenKind::Asterisk, "*"),
        token(TokenKind::LeftParen, "("),
        token(TokenKind::Id, "x"),
        token(TokenKind::RightParen, ")"),
        token(TokenKind::Eof, ""),
    ];
    let (ast, bag) = parse(tokens);
    assert!(bag.is_empty());
    assert_eq!(shapes(&ast), vec!["[2 * (x)]"]);
}

#[test]
fn an_end_of_input_in_the_middle_ends_the_program() {
    let token = |kind| Token::new(kind, TextSpan::new(0, 0, String::new()));
    let tokens = vec![token(TokenKind::Number(1)), token(TokenKind::Eof), token(TokenKind::Number(2)), token(TokenKind::Eof)];
    let (ast, bag) = parse(tokens);
    assert!(bag.is_empty());
    assert_eq!(shapes(&ast), vec!["1"]);
}

#[test]
fn the_operator_knows_how_tightly_it_binds() {
    let operator = |kind| exprlang::ast::ASTBinaryOperator::new(kind, Token::new(TokenKind::Plus, TextSpan::new(0, 1, "+".to_string())));
    assert_eq!(operator(ASTBinaryOperatorKind::Add).precedence(), 1);
    assert_eq!(operator(ASTBinaryOperatorKind::Subtract).precedence(), 1);
    assert_eq!(operator(ASTBinaryOperatorKind::Multiply).precedence(), 2);
    assert_eq!(operator(ASTBinaryOperatorKind::Divide).precedence(), 2);
}

#[test]
fn the_values_of_numbers_do_not_change_the_diagnostics() {
    for (one, other) in [("(1/0", "(7/5"), ("1/0", "8/2"), ("let 0 = 0 0", "let 3 = 4 5"), ("1 0 ) 0", "9 9 ) 9")] {
        let (_, first) = parse(tokenize(one));
        let (_, second) = parse(tokenize(other));
        assert_eq!(first.len(), second.len());
        for index in 0..first.len() {
            assert_eq!(first.diagnostics[index].message, second.diagnostics[index].message);
            assert_eq!(first.diagnostics[index].span.start, second.diagnostics[index].span.start);
            assert_eq!(first.diagnostics[index].span.end, second.diagnostics[index].span.end);
            assert_eq!(first.diagnostics[index].kind, second.diagnostics[index].kind);
        }
    }
    assert!(parse(tokenize("1/0")).1.is_empty());
}
