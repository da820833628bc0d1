use exprlang::ast::lexer::{Lexer, TextSpan, Token, TokenKind};
use exprlang::pipeline::tokenize;

fn kinds(source: &str) -> Vec<TokenKind> {
    tokenize(source).iter().map(|token| token.kind).collect()
}

fn end_of_input() -> Token {
    Token::new(TokenKind::Eof, TextSpan::new(0, 0, String::new()))
}

#[test]
fn digits_alone_are_one_number() {
    let tokens = tokenize("12345");
    assert_eq!(tokens.len(), 2);
    assert_eq!(tokens[0], Token::new(TokenKind::Number(12345), TextSpan::new(0, 5, "12345".to_string())));
    assert_eq!(tokens[1], end_of_input());
}

#[test]
fn a_single_zero_is_a_number() {
    let tokens = tokenize("0");
    assert_eq!(tokens.len(), 2);
    assert_eq!(tokens[0].kind, TokenKind::Number(0));
    assert_eq!(tokens[0].span.length(), 1);
}

#[test]
fn leading_zeros_do_not_change_the_value() {
    let tokens = tokenize("007");
    assert_eq!(tokens[0].kind, TokenKind::Number(7));
    assert_eq!(tokens[0].span.literal, "007");
}

#[test]
fn the_largest_literal_that_fits_keeps_its_value() {
    assert_eq!(kinds("9223372036854775807")[0], TokenKind::Number(i64::MAX));
}

#[test]
fn a_literal_that_does_not_fit_wraps_around() {
    assert_eq!(kinds("9223372036854775808")[0], TokenKind::Number(i64::MIN));
    assert_eq!(kinds("18446744073709551616")[0], TokenKind::Number(0));
    assert_eq!(kinds("18446744073709551621")[0], TokenKind::Number(5));
}

#[test]
fn the_literals_of_all_tokens_make_up_the_source() {
    for source in ["", "1+2*3", "let x = 5\n  x + 1 & y", "  ((12)) ", "a\u{e9}b \u{4eac} 7\u{a0}8", "\t\r\n"] {
        let mut text = String::new();
        for token in tokenize(source) {
            text.push_str(&token.span.literal);
        }
        assert_eq!(text, source);
    }
}

#[test]
fn spans_tile_the_source() {
    let source = "let \u{e9}t\u{e9} = (42 - 7) / x";
    let tokens = tokenize(source);
    let mut at = 0;
    for token in &tokens[..tokens.len() - 1] {
        assert_eq!(token.span.start, at);
        assert_eq!(&source[token.span.start..token.span.end], token.span.literal);
        assert_eq!(token.span.length(), token.span.literal.len());
        at = token.span.end;
    }
    assert_eq!(at, source.len());
    assert_eq!(tokens[tokens.len() - 1], end_of_input());
}

#[test]
fn each_punctuation_character_has_its_kind() {
    assert_eq!(
        kinds("+-*/()="),
        vec![
            TokenKind::Plus,
            TokenKind::Minus,
            TokenKind::Asterisk,
            TokenKind::Slash,
            TokenKind::LeftParen,
            TokenKind::RightParen,
            TokenKind::Equals,
            TokenKind::Eof,
        ]
    );
}

#[test]
fn an_unknown_character_is_bad() {
    assert_eq!(kinds("&"), vec![TokenKind::Bad, TokenKind::Eof]);
    assert_eq!(kinds("1 $ 2")[2], TokenKind::Bad);
    assert_eq!(kinds("_")[0], TokenKind::Bad);
    let tokens = tokenize("\u{1f49d}");
    assert_eq!(tokens[0].kind, TokenKind::Bad);
    assert_eq!(tokens[0].span.start, 0);
    assert_eq!(tokens[0].span.end, 4);
}

#[test]
fn whitespace_is_one_token_for_each_character() {
    assert_eq!(
        kinds("  \t\n"),
        vec![
            TokenKind::Whitespace,
            TokenKind::Whitespace,
            TokenKind::Whitespace,
            TokenKind::Whitespace,
            TokenKind::Eof,
        ]
    );
    let tokens = tokenize("\u{a0}1");
    assert_eq!(tokens[0].kind, TokenKind::Whitespace);
    assert_eq!(tokens[0].span.end, 2);
    assert_eq!(tokens[1].kind, TokenKind::Number(1));
    assert_eq!(tokens[1].span.start, 2);
}

#[test]
fn a_run_of_letters_is_a_name_or_the_keyword() {
    assert_eq!(kinds("let"), vec![TokenKind::Let, TokenKind::Eof]);
    assert_eq!(kinds("letter"), vec![TokenKind::Id, TokenKind::Eof]);
    assert_eq!(kinds("Let"), vec![TokenKind::Id, TokenKind::Eof]);
    assert_eq!(kinds("le t"), vec![TokenKind::Id, TokenKind::Whitespace, TokenKind::Id, TokenKind::Eof]);
    let tokens = tokenize("\u{e9}t\u{e9}1");
    assert_eq!(tokens[0].kind, TokenKind::Id);
    assert_eq!(tokens[0].span.literal, "\u{e9}t\u{e9}");
    assert_eq!(tokens[0].span.start, 0);
    assert_eq!(tokens[0].span.end, 5);
    assert_eq!(tokens[1].kind, TokenKind::Number(1));
}

#[test]
fn a_name_ends_where_a_digit_starts() {
    assert_eq!(kinds("x1"), vec![TokenKind::Id, TokenKind::Number(1), TokenKind::Eof]);
    assert_eq!(kinds("1x"), vec![TokenKind::Number(1), TokenKind::Id, TokenKind::Eof]);
}

#[test]
fn the_end_of_input_comes_once() {
    let mut lexer = Lexer::new("7");
    assert_eq!(lexer.next_token().map(|token| token.kind), Some(TokenKind::Number(7)));
    assert_eq!(lexer.next_token(), Some(end_of_input()));
    assert_eq!(lexer.next_token(), None);
    assert_eq!(lexer.next_token(), None);
    let mut empty = Lexer::new("");
    assert_eq!(empty.next_token(), Some(end_of_input()));
    assert_eq!(empty.next_token(), None);
}

#[test]
fn the_classes_within_ascii_are_those_of_the_standard_library() {
    for code in 0u8..128 {
        let c = code as char;
        let text = c.to_string();
        let kind = tokenize(&text)[0].kind;
        if c.is_ascii_digit() {
            assert_eq!(kind, TokenKind::Number(c.to_digit(10).unwrap() as i64));
        } else if c.is_whitespace() {
            assert_eq!(kind, TokenKind::Whitespace);
        } else if c.is_alphabetic() {
            assert_eq!(kind, TokenKind::Id);
        } else {
            assert!(!matches!(kind, TokenKind::Number(_) | TokenKind::Whitespace | TokenKind::Id | TokenKind::Let | TokenKind::Eof));
        }
    }
}

#[test]
fn kinds_have_their_names() {
    assert_eq!(TokenKind::Number(3).to_string(), "Number");
    assert_eq!(TokenKind::Plus.to_string(), "+");
    assert_eq!(TokenKind::Minus.to_string(), "-");
    assert_eq!(TokenKind::Asterisk.to_string(), "*");
    assert_eq!(TokenKind::Slash.to_string(), "/");
    assert_eq!(TokenKind::LeftParen.to_string(), "(");
    assert_eq!(TokenKind::RightParen.to_string(), ")");
    assert_eq!(TokenKind::Bad.to_string(), "Bad");
    assert_eq!(TokenKind::Whitespace.to_string(), "Whitespace");
    assert_eq!(TokenKind::Eof.to_string(), "Eof");
    assert_eq!(TokenKind::Let.to_string(), "Let");
    assert_eq!(TokenKind::Id.to_string(), "Identifier");
    assert_eq!(TokenKind::Equals.to_string(), "=");
}

#[test]
fn a_copy_of_a_token_equals_it() {
    let token = Token::new(TokenKind::Id, TextSpan::new(3, 4, "x".to_string()));
    assert_eq!(token.clone(), token);
    assert_ne!(token, Token::new(TokenKind::Id, TextSpan::new(3, 4, "y".to_string())));
    assert_ne!(token, Token::new(TokenKind::Let, TextSpan::new(3, 4, "x".to_string())));
    assert_ne!(token.span, TextSpan::new(2, 4, "x".to_string()));
}
