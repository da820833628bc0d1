use exprlang::ast::lexer::{TextSpan, Token, TokenKind};
use exprlang::diagnostics::printer::DiagnosticsPrinter;
use exprlang::diagnostics::{Diagnostics, DiagnosticsBag, DiagnosticsKind};
use exprlang::pipeline::{parse, tokenize};
use exprlang::text::SourceText;

const RED: &str = "\u{1b}[38;5;1m";
const RESET: &str = "\u{1b}[39m";

fn error(message: &str, start: usize, end: usize, literal: &str) -> Diagnostics {
    Diagnostics::new(message.to_string(), TextSpan::new(start, end, literal.to_string()), DiagnosticsKind::Error)
}

#[test]
fn a_new_bag_is_empty() {
    let bag = DiagnosticsBag::new();
    assert!(bag.is_empty());
    assert_eq!(bag.len(), 0);
    assert_eq!(bag.diagnostics.len(), 0);
}

#[test]
fn reports_are_kept_in_order() {
    let mut bag = DiagnosticsBag::new();
    bag.report_error("first".to_string(), TextSpan::new(1, 2, "a".to_string()));
    bag.report_warning("second".to_string(), TextSpan::new(3, 5, "bc".to_string()));
    bag.report_error("third".to_string(), TextSpan::new(0, 0, String::new()));
    assert_eq!(bag.len(), 3);
    assert_eq!(bag.diagnostics[0].message, "first");
    assert_eq!(bag.diagnostics[0].kind, DiagnosticsKind::Error);
    assert_eq!(bag.diagnostics[0].span, TextSpan::new(1, 2, "a".to_string()));
    assert_eq!(bag.diagnostics[1].message, "second");
    assert_eq!(bag.diagnostics[1].kind, DiagnosticsKind::Warning);
    assert_eq!(bag.diagnostics[1].span, TextSpan::new(3, 5, "bc".to_string()));
    assert_eq!(bag.diagnostics[2].message, "third");
}

#[test]
fn an_unexpected_token_is_reported_with_both_kinds() {
    let mut bag = DiagnosticsBag::new();
    let found = Token::new(TokenKind::Number(12), TextSpan::new(4, 6, "12".to_string()));
    bag.report_unexpected_token(&TokenKind::RightParen, &found);
    bag.report_unexpected_token(&TokenKind::Id, &Token::new(TokenKind::Equals, TextSpan::new(7, 8, "=".to_string())));
    assert_eq!(bag.len(), 2);
    assert_eq!(bag.diagnostics[0].message, "Expected ) | Found Number");
    assert_eq!(bag.diagnostics[0].kind, DiagnosticsKind::Error);
    assert_eq!(bag.diagnostics[0].span, found.span);
    assert_eq!(bag.diagnostics[1].message, "Expected Identifier | Found =");
}

#[test]
fn a_token_that_starts_no_expression_is_reported_with_its_kind() {
    let mut bag = DiagnosticsBag::new();
    let found = Token::new(TokenKind::Bad, TextSpan::new(6, 7, "&".to_string()));
    bag.report_expected_expression(&found);
    assert_eq!(bag.len(), 1);
    assert_eq!(bag.diagnostics[0].message, "Expected Expression | Found Bad");
    assert_eq!(bag.diagnostics[0].kind, DiagnosticsKind::Error);
    assert_eq!(bag.diagnostics[0].span, found.span);
}

#[test]
fn a_diagnostic_holds_what_it_was_made_of() {
    let diagnostic = Diagnostics::new("m".to_string(), TextSpan::new(1, 3, "xy".to_string()), DiagnosticsKind::Warning);
    assert_eq!(diagnostic.message, "m");
    assert_eq!(diagnostic.span.start, 1);
    assert_eq!(diagnostic.span.end, 3);
    assert_eq!(diagnostic.span.literal, "xy");
    assert_eq!(diagnostic.span.length(), 2);
    assert_eq!(diagnostic.kind, DiagnosticsKind::Warning);
}

#[test]
fn a_diagnostic_is_shown_under_its_line() {
    let source = "1 + 1 & 0";
    let text = SourceText::new(source.to_string());
    let (_, bag) = parse(tokenize(source));
    let printer = DiagnosticsPrinter::new(&text, &bag.diagnostics);
    assert_eq!(
        printer.stringify_with(&bag.diagnostics[0], "<"),
        format!("1 + 1 <&{RESET} 0\n      ^\n      |\n      +-- Expected Expression | Found Bad")
    );
}

#[test]
fn the_span_is_red_unless_the_environment_forbids_colours() {
    let source = "1 + 1 & 0";
    let text = SourceText::new(source.to_string());
    let (_, bag) = parse(tokenize(source));
    let printer = DiagnosticsPrinter::new(&text, &bag.diagnostics);
    let shown = printer.stringify_diagnostic(&bag.diagnostics[0]);
    let red = printer.stringify_with(&bag.diagnostics[0], RED);
    let plain = printer.stringify_with(&bag.diagnostics[0], "");
    assert!(shown == red || shown == plain);
    assert_ne!(red, plain);
    let all = printer.stringify_all();
    assert_eq!(all.len(), 1);
    assert!(all[0] == red || all[0] == plain);
}

#[test]
fn the_context_is_eight_characters_on_either_side() {
    let source = "0123456789 + & + abcdefghijklm";
    let text = SourceText::new(source.to_string());
    let diagnostics = vec![error("here", 13, 14, "&")];
    let printer = DiagnosticsPrinter::new(&text, &diagnostics);
    assert_eq!(
        printer.stringify_with(&diagnostics[0], ""),
        format!("56789 + &{RESET} + abcde\n        ^\n        |\n        +-- here")
    );
}

#[test]
fn a_span_of_several_bytes_gets_as_many_carets() {
    let source = "let x = 12345 )";
    let text = SourceText::new(source.to_string());
    let diagnostics = vec![error("long", 8, 13, "12345")];
    let printer = DiagnosticsPrinter::new(&text, &diagnostics);
    assert_eq!(
        printer.stringify_with(&diagnostics[0], "!"),
        format!("let x = !12345{RESET} )\n        ^^^^^\n        |\n        +-- long")
    );
}

#[test]
fn a_diagnostic_on_a_later_line_shows_that_line() {
    let source = "let x = 1\nlet y = )\nx";
    let text = SourceText::new(source.to_string());
    let (_, bag) = parse(tokenize(source));
    assert_eq!(bag.len(), 1);
    let printer = DiagnosticsPrinter::new(&text, &bag.diagnostics);
    assert_eq!(
        printer.stringify_with(&bag.diagnostics[0], ""),
        format!("let y = ){RESET}\n        ^\n        |\n        +-- Expected Expression | Found )")
    );
}

#[test]
fn a_diagnostic_at_the_start_of_a_line_is_not_indented() {
    let source = "1\n& 2";
    let text = SourceText::new(source.to_string());
    let (_, bag) = parse(tokenize(source));
    let printer = DiagnosticsPrinter::new(&text, &bag.diagnostics);
    assert_eq!(
        printer.stringify_with(&bag.diagnostics[0], ""),
        format!("&{RESET} 2\n^\n|\n+-- Expected Expression | Found Bad")
    );
}

#[test]
fn the_end_of_input_is_shown_at_the_start_of_the_text() {
    let source = "1 +";
    let text = SourceText::new(source.to_string());
    let (_, bag) = parse(tokenize(source));
    let printer = DiagnosticsPrinter::new(&text, &bag.diagnostics);
    assert_eq!(
        printer.stringify_with(&bag.diagnostics[0], ""),
        format!("{RESET}1 +\n\n|\n+-- Expected Expression | Found Eof")
    );
}

#[test]
fn context_is_counted_in_characters() {
    let source = "\u{e9}\u{e9}\u{e9}\u{e9}\u{e9}\u{e9}\u{e9}\u{e9}\u{e9}\u{e9} & \u{4eac}\u{4eac}";
    let text = SourceText::new(source.to_string());
    let (_, bag) = parse(tokenize(source));
    assert_eq!(bag.diagnostics[0].span.start, 21);
    let printer = DiagnosticsPrinter::new(&text, &bag.diagnostics);
    assert_eq!(
        printer.stringify_with(&bag.diagnostics[0], ""),
        format!("\u{e9}\u{e9}\u{e9}\u{e9}\u{e9}\u{e9}\u{e9} &{RESET} \u{4eac}\u{4eac}\n        ^\n        |\n        +-- Expected Expression | Found Bad")
    );
}

#[test]
fn a_span_beyond_the_text_shows_the_end_of_the_last_line() {
    let text = SourceText::new("ab\ncd".to_string());
    let diagnostics = vec![error("far", 40, 42, "zz"), error("reversed", 4, 1, "")];
    let printer = DiagnosticsPrinter::new(&text, &diagnostics);
    assert_eq!(
        printer.stringify_with(&diagnostics[0], ""),
        format!("cd{RESET}\n        ^^\n        |\n        +-- far")
    );
    assert_eq!(
        printer.stringify_with(&diagnostics[1], ""),
        format!("c{RESET}d\n \n |\n +-- reversed")
    );
}
