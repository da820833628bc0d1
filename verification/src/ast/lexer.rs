//! Tokens, source spans and the scanner that produces them.

use vstd::prelude::*;
use crate::text::classes::{
    decimal_digit_value, digit_value, is_alphabetic_char, is_blank, is_decimal_digit, is_digit,
    is_letter, is_whitespace_char,
};
use crate::text::encoding::{
    byte_length, char_width, lemma_utf8_len_prefix, lemma_utf8_len_push, utf8_len,
};

verus! {

/// The kind of a token. A number carries its decoded value.
#[derive(Debug, Clone, Copy, PartialEq, Eq, Structural)]
pub enum TokenKind {
    /// A run of decimal digits, with its value.
    Number(i64),
    Plus,
    Minus,
    Asterisk,
    Slash,
    LeftParen,
    RightParen,
    /// The end of the input.
    Eof,
    /// A character that starts no token.
    Bad,
    /// One whitespace character.
    Whitespace,
    /// The keyword `let`.
    Let,
    /// A name: a run of letters other than `let`.
    Id,
    Equals,
}

impl TokenKind {
    /// The name under which the kind appears in messages.
    pub open spec fn name(self) -> Seq<char> {
        match self {
            TokenKind::Number(_) => "Number"@,
            TokenKind::Plus => "+"@,
            TokenKind::Minus => "-"@,
            TokenKind::Asterisk => "*"@,
            TokenKind::Slash => "/"@,
            TokenKind::LeftParen => "("@,
            TokenKind::RightParen => ")"@,
            TokenKind::Bad => "Bad"@,
            TokenKind::Whitespace => "Whitespace"@,
            TokenKind::Eof => "Eof"@,
            TokenKind::Let => "Let"@,
            TokenKind::Id => "Identifier"@,
            TokenKind::Equals => "="@,
        }
    }

    /// The name under which the kind appears in messages.
    pub fn to_string(&self) -> (text: String)
        ensures
            text@ == self.name(),
    {
        match self {
            TokenKind::Number(_) => "Number".to_owned(),
            TokenKind::Plus => "+".to_owned(),
            TokenKind::Minus => "-".to_owned(),
            TokenKind::Asterisk => "*".to_owned(),
            TokenKind::Slash => "/".to_owned(),
            TokenKind::LeftParen => "(".to_owned(),
            TokenKind::RightParen => ")".to_owned(),
            TokenKind::Bad => "Bad".to_owned(),
            TokenKind::Whitespace => "Whitespace".to_owned(),
            TokenKind::Eof => "Eof".to_owned(),
            TokenKind::Let => "Let".to_owned(),
            TokenKind::Id => "Identifier".to_owned(),
            TokenKind::Equals => "=".to_owned(),
        }
    }
}

/// The mathematical content of a [`TextSpan`]: a half-open byte range and
/// the text that it covers.
pub struct SpanView {
    pub start: nat,
    pub end: nat,
    pub literal: Seq<char>,
}

impl SpanView {
    /// The range is not reversed, and the literal is as long as the range.
    pub open spec fn well_formed(self) -> bool {
        &&& self.start <= self.end
        &&& utf8_len(self.literal) == self.end - self.start
    }

    /// The number of bytes in the range; none in a reversed one.
    pub open spec fn length(self) -> nat {
        if self.start <= self.end {
            (self.end - self.start) as nat
        } else {
            0
        }
    }

    /// The span of the characters `from..to` of `source`.
    pub open spec fn of(source: Seq<char>, from: int, to: int) -> SpanView {
        SpanView {
            start: utf8_len(source.take(from)),
            end: utf8_len(source.take(to)),
            literal: source.subrange(from, to),
        }
    }

    /// The placeholder span of the end-of-input token.
    pub open spec fn placeholder() -> SpanView {
        SpanView { start: 0, end: 0, literal: Seq::empty() }
    }
}

/// A half-open byte range `[start, end)` of the source, with the text in it.
#[derive(Debug)]
pub struct TextSpan {
    pub start: usize,
    pub end: usize,
    pub literal: String,
}

impl View for TextSpan {
    type V = SpanView;

    open spec fn view(&self) -> SpanView {
        SpanView { start: self.start as nat, end: self.end as nat, literal: self.literal@ }
    }
}

impl Clone for TextSpan {
    fn clone(&self) -> (copy: Self)
        ensures
            copy@ == self@,
    {
        TextSpan { start: self.start, end: self.end, literal: self.literal.clone() }
    }
}

impl PartialEq for TextSpan {
    fn eq(&self, other: &Self) -> (equal: bool) {
        self.start == other.start && self.end == other.end && self.literal == other.literal
    }
}

impl vstd::std_specs::cmp::PartialEqSpecImpl for TextSpan {
    open spec fn obeys_eq_spec() -> bool {
        true
    }

    open spec fn eq_spec(&self, other: &Self) -> bool {
        self@ == other@
    }
}

impl TextSpan {
    pub fn new(start: usize, end: usize, literal: String) -> (span: Self)
        ensures
            span@ == (SpanView { start: start as nat, end: end as nat, literal: literal@ }),
    {
        Self { start, end, literal }
    }

    /// The number of bytes in the range.
    pub fn length(&self) -> (length: usize)
        requires
            self@.start <= self@.end,
        ensures
            length == self@.length(),
    {
        self.end - self.start
    }
}

/// The mathematical content of a [`Token`].
pub struct TokenView {
    pub kind: TokenKind,
    pub span: SpanView,
}

/// A token: its kind and where it stands in the source.
#[derive(Debug)]
pub struct Token {
    pub kind: TokenKind,
    pub span: TextSpan,
}

impl View for Token {
    type V = TokenView;

    open spec fn view(&self) -> TokenView {
        TokenView { kind: self.kind, span: self.span@ }
    }
}

impl Clone for Token {
    fn clone(&self) -> (copy: Self)
        ensures
            copy@ == self@,
    {
        Token { kind: self.kind, span: self.span.clone() }
    }
}

impl PartialEq for Token {
    fn eq(&self, other: &Self) -> (equal: bool) {
        self.kind == other.kind && self.span == other.span
    }
}

impl vstd::std_specs::cmp::PartialEqSpecImpl for Token {
    open spec fn obeys_eq_spec() -> bool {
        true
    }

    open spec fn eq_spec(&self, other: &Self) -> bool {
        self.kind == other.kind && self.span@ == other.span@
    }
}

impl Token {
    pub fn new(kind: TokenKind, span: TextSpan) -> (token: Self)
        ensures
            token@ == (TokenView { kind, span: span@ }),
    {
        Self { kind, span }
    }
}

/// Where the run of decimal digits that starts at `from` ends.
pub open spec fn digits_end(source: Seq<char>, from: int) -> int
    decreases source.len() - from,
{
    if 0 <= from < source.len() && is_decimal_digit(source[from]) {
        digits_end(source, from + 1)
    } else {
        from
    }
}

/// Where the run of alphabetic characters that starts at `from` ends.
pub open spec fn letters_end(source: Seq<char>, from: int) -> int
    decreases source.len() - from,
{
    if 0 <= from < source.len() && is_alphabetic_char(source[from]) {
        letters_end(source, from + 1)
    } else {
        from
    }
}

/// The value of a run of decimal digits: each digit multiplies what came
/// before by ten and adds itself, wrapping around in 64 bits.
pub open spec fn number_value(digits: Seq<char>) -> i64
    decreases digits.len(),
{
    if digits.len() == 0 {
        0
    } else {
        number_value(digits.drop_last()).wrapping_mul(10).wrapping_add(
            decimal_digit_value(digits.last()) as i64,
        )
    }
}

/// The kind of a token that is a single character, neither digit, whitespace
/// nor letter.
pub open spec fn punctuation_kind(c: char) -> TokenKind {
    if c == '+' {
        TokenKind::Plus
    } else if c == '-' {
        TokenKind::Minus
    } else if c == '*' {
        TokenKind::Asterisk
    } else if c == '/' {
        TokenKind::Slash
    } else if c == '(' {
        TokenKind::LeftParen
    } else if c == ')' {
        TokenKind::RightParen
    } else if c == '=' {
        TokenKind::Equals
    } else {
        TokenKind::Bad
    }
}

/// The kind of a run of letters.
pub open spec fn word_kind(word: Seq<char>) -> TokenKind {
    if word == "let"@ {
        TokenKind::Let
    } else {
        TokenKind::Id
    }
}

/// Where the token that starts at character `from` ends.
pub open spec fn token_end(source: Seq<char>, from: int) -> int {
    let c = source[from];
    if is_decimal_digit(c) {
        digits_end(source, from)
    } else if is_whitespace_char(c) {
        from + 1
    } else if is_alphabetic_char(c) {
        letters_end(source, from)
    } else {
        from + 1
    }
}

/// The kind of the token that starts at character `from`.
pub open spec fn token_kind(source: Seq<char>, from: int) -> TokenKind {
    let c = source[from];
    if is_decimal_digit(c) {
        TokenKind::Number(number_value(source.subrange(from, digits_end(source, from))))
    } else if is_whitespace_char(c) {
        TokenKind::Whitespace
    } else if is_alphabetic_char(c) {
        word_kind(source.subrange(from, letters_end(source, from)))
    } else {
        punctuation_kind(c)
    }
}

/// The token that starts at character `from`, for `0 <= from < source.len()`.
pub open spec fn token_at(source: Seq<char>, from: int) -> TokenView {
    TokenView {
        kind: token_kind(source, from),
        span: SpanView::of(source, from, token_end(source, from)),
    }
}

/// The token that marks the end of the input.
pub open spec fn end_of_input() -> TokenView {
    TokenView { kind: TokenKind::Eof, span: SpanView::placeholder() }
}

/// A run of digits or letters ends within the source, at or after its start.
pub proof fn lemma_run_bounds(source: Seq<char>, from: int)
    requires
        0 <= from <= source.len(),
    ensures
        from <= digits_end(source, from) <= source.len(),
        from <= letters_end(source, from) <= source.len(),
    decreases source.len() - from,
{
    if from < source.len() {
        lemma_run_bounds(source, from + 1);
    }
}

/// A token is not empty and ends within the source.
pub proof fn lemma_token_end_bounds(source: Seq<char>, from: int)
    requires
        0 <= from < source.len(),
    ensures
        from < token_end(source, from) <= source.len(),
{
    lemma_run_bounds(source, from + 1);
}

/// The tokens of `source` from character `from` on, the end-of-input token
/// last.
pub open spec fn tokens_from(source: Seq<char>, from: int) -> Seq<TokenView>
    decreases source.len() - from,
{
    if 0 <= from < source.len() {
        proof {
            lemma_token_end_bounds(source, from);
        }
        seq![token_at(source, from)] + tokens_from(source, token_end(source, from))
    } else {
        seq![end_of_input()]
    }
}

/// All tokens of `source`, the end-of-input token last.
pub open spec fn tokenize(source: Seq<char>) -> Seq<TokenView> {
    tokens_from(source, 0)
}

/// A scanner over a source text. It hands out one token per call, the
/// end-of-input token last and once.
pub struct Lexer<'a> {
    input: &'a str,
    /// Byte offset of the cursor.
    cur_pos: usize,
    /// Character index of the cursor.
    index: usize,
    /// Number of characters in the input.
    length: usize,
    /// Whether the end-of-input token has been handed out.
    finished: bool,
}

impl<'a> Lexer<'a> {
    /// The text being scanned.
    pub closed spec fn source(&self) -> Seq<char> {
        self.input@
    }

    /// The character index of the cursor.
    pub closed spec fn position(&self) -> int {
        self.index as int
    }

    /// The byte offset of the cursor.
    pub closed spec fn byte_position(&self) -> int {
        self.cur_pos as int
    }

    /// Whether the end-of-input token has been handed out.
    pub closed spec fn exhausted(&self) -> bool {
        self.finished
    }

    /// The cursor stands on a character boundary within the text, and its
    /// byte offset and character index agree.
    pub closed spec fn well_formed(&self) -> bool {
        &&& self.length == self.input@.len()
        &&& self.index <= self.length
        &&& self.cur_pos == utf8_len(self.input@.take(self.index as int))
    }

    /// The tokens that are still to come.
    pub open spec fn remaining(&self) -> Seq<TokenView> {
        if self.exhausted() {
            Seq::empty()
        } else {
            tokens_from(self.source(), self.position())
        }
    }

    pub fn new(input: &'a str) -> (lexer: Self)
        ensures
            lexer.well_formed(),
            lexer.source() == input@,
            lexer.position() == 0,
            lexer.byte_position() == 0,
            !lexer.exhausted(),
            lexer.remaining() == tokenize(input@),
    {
        let length = input.unicode_len();
        Self { input, cur_pos: 0, index: 0, length, finished: false }
    }

    /// The next token, or `None` once the end-of-input token has been handed
    /// out.
    pub fn next_token(&mut self) -> (token: Option<Token>)
        requires
            old(self).well_formed(),
        ensures
            final(self).well_formed(),
            final(self).source() == old(self).source(),
            old(self).position() <= final(self).position() <= final(self).source().len(),
            old(self).byte_position() <= final(self).byte_position(),
            final(self).byte_position() == utf8_len(
                final(self).source().take(final(self).position()),
            ),
            match token {
                Some(token) => {
                    &&& old(self).remaining().len() > 0
                    &&& token@ == old(self).remaining()[0]
                    &&& final(self).remaining() == old(self).remaining().drop_first()
                },
                None => old(self).remaining().len() == 0 && final(self).remaining().len() == 0,
            },
    {
        proof {
            lemma_utf8_len_prefix(self.source(), 0, self.position());
        }
        if self.finished {
            return None;
        }
        if self.index >= self.length {
            self.finished = true;
            return Some(Token::new(TokenKind::Eof, TextSpan::new(0, 0, String::new())));
        }
        let c = self.input.get_char(self.index);
        let start = self.cur_pos;
        let first = self.index;
        let kind = if Self::is_number_start(&c) {
            let number = self.consume_number();
            TokenKind::Number(number)
        } else if Self::is_whitespace(&c) {
            self.consume();
            TokenKind::Whitespace
        } else if Self::is_identifier_start(&c) {
            let identifier = self.consume_identifier();
            if identifier == "let".to_owned() {
                TokenKind::Let
            } else {
                TokenKind::Id
            }
        } else {
            self.consume_punctuation()
        };
        let end = self.cur_pos;
        proof {
            lemma_token_end_bounds(self.source(), first as int);
            lemma_utf8_len_prefix(self.source(), first as int, self.position());
        }
        let literal = self.input.substring_char(first, self.index).to_owned();
        Some(Token::new(kind, TextSpan::new(start, end, literal)))
    }

    fn is_whitespace(c: &char) -> (answer: bool)
        ensures
            answer == is_whitespace_char(*c),
    {
        is_blank(*c)
    }

    fn is_number_start(c: &char) -> (answer: bool)
        ensures
            answer == is_decimal_digit(*c),
    {
        is_digit(*c)
    }

    fn is_identifier_start(c: &char) -> (answer: bool)
        ensures
            answer == is_alphabetic_char(*c),
    {
        is_letter(*c)
    }

    /// The character under the cursor, if there is one.
    fn current_char(&self) -> (c: Option<char>)
        requires
            self.well_formed(),
        ensures
            c == if self.position() < self.source().len() {
                Some(self.source()[self.position()])
            } else {
                None
            },
    {
        if self.index < self.length {
            Some(self.input.get_char(self.index))
        } else {
            None
        }
    }

    /// Moves the cursor over one character and returns it; at the end of the
    /// text nothing moves.
    fn consume(&mut self) -> (c: Option<char>)
        requires
            old(self).well_formed(),
        ensures
            final(self).well_formed(),
            final(self).source() == old(self).source(),
            final(self).exhausted() == old(self).exhausted(),
            c == if old(self).position() < old(self).source().len() {
                Some(old(self).source()[old(self).position()])
            } else {
                None
            },
            final(self).position() == if c is Some {
                old(self).position() + 1
            } else {
                old(self).position()
            },
    {
        if self.index >= self.length {
            return None;
        }
        let c = self.input.get_char(self.index);
        let width = char_width(c);
        let total = byte_length(self.input);
        proof {
            let source = self.input@;
            let at = self.index as int;
            assert(source.take(at + 1) =~= source.take(at).push(source[at]));
            lemma_utf8_len_push(source.take(at), source[at]);
            lemma_utf8_len_prefix(source, at, at + 1);
        }
        assert(self.cur_pos + width <= total);
        self.index += 1;
        self.cur_pos += width;
        Some(c)
    }

    /// Moves the cursor over a run of decimal digits and returns its value.
    fn consume_number(&mut self) -> (number: i64)
        requires
            old(self).well_formed(),
        ensures
            final(self).well_formed(),
            final(self).source() == old(self).source(),
            final(self).exhausted() == old(self).exhausted(),
            final(self).position() == digits_end(old(self).source(), old(self).position()),
            number == number_value(
                old(self).source().subrange(old(self).position(), final(self).position()),
            ),
    {
        let mut number: i64 = 0;
        let ghost source = self.source();
        let ghost from = self.position();
        loop
            invariant
                self.well_formed(),
                self.source() == source,
                self.exhausted() == old(self).exhausted(),
                0 <= from <= self.position() <= source.len(),
                digits_end(source, self.position()) == digits_end(source, from),
                number == number_value(source.subrange(from, self.position())),
            ensures
                self.position() == digits_end(source, from),
            decreases source.len() - self.position(),
        {
            let c = match self.current_char() {
                Some(c) => c,
                None => {
                    break ;
                },
            };
            if !Self::is_number_start(&c) {
                break ;
            }
            let ghost at = self.position();
            self.consume();
            number = number.wrapping_mul(10).wrapping_add(digit_value(c));
            proof {
                let run = source.subrange(from, at + 1);
                assert(run.drop_last() =~= source.subrange(from, at));
            }
        }
        number
    }

    /// Moves the cursor over one character and classifies it.
    fn consume_punctuation(&mut self) -> (kind: TokenKind)
        requires
            old(self).well_formed(),
            old(self).position() < old(self).source().len(),
        ensures
            final(self).well_formed(),
            final(self).source() == old(self).source(),
            final(self).exhausted() == old(self).exhausted(),
            final(self).position() == old(self).position() + 1,
            kind == punctuation_kind(old(self).source()[old(self).position()]),
    {
        let c = self.input.get_char(self.index);
        self.consume();
        match c {
            '+' => TokenKind::Plus,
            '-' => TokenKind::Minus,
            '*' => TokenKind::Asterisk,
            '/' => TokenKind::Slash,
            '(' => TokenKind::LeftParen,
            ')' => TokenKind::RightParen,
            '=' => TokenKind::Equals,
            _ => TokenKind::Bad,
        }
    }

    /// Moves the cursor over a run of letters and returns it.
    fn consume_identifier(&mut self) -> (identifier: String)
        requires
            old(self).well_formed(),
        ensures
            final(self).well_formed(),
            final(self).source() == old(self).source(),
            final(self).exhausted() == old(self).exhausted(),
            final(self).position() == letters_end(old(self).source(), old(self).position()),
            identifier@ == old(self).source().subrange(
                old(self).position(),
                final(self).position(),
            ),
    {
        let first = self.index;
        let ghost source = self.source();
        let ghost from = self.position();
        loop
            invariant
                self.well_formed(),
                self.source() == source,
                self.exhausted() == old(self).exhausted(),
                first == from,
                0 <= from <= self.position() <= source.len(),
                letters_end(source, self.position()) == letters_end(source, from),
            ensures
                self.position() == letters_end(source, from),
            decreases source.len() - self.position(),
        {
            let c = match self.current_char() {
                Some(c) => c,
                None => {
                    break ;
                },
            };
            if !Self::is_identifier_start(&c) {
                break ;
            }
            self.consume();
        }
        self.input.substring_char(first, self.index).to_owned()
    }
}

} // verus!
