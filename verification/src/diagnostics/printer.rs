//! Rendering of diagnostics: the line with the offending span picked out,
//! a row of carets under it, and the message.

use vstd::prelude::*;
use vstd::string::*;
use crate::diagnostics::{DiagnosticView, Diagnostics};
use crate::terminal::{red_code, red_highlight, reset, reset_code};
use crate::text::encoding::utf8_width;
use crate::text::{
    char_index, char_index_at, lemma_skip_bounds, line_index_of, line_start_offset, line_text,
    skip_bytes, SourceText,
};

verus! {

/// How many characters of context are shown on either side of the span, and
/// how far the carets are indented at most.
pub const PREFIX_LENGTH: usize = 8;

/// `unit`, `count` times over.
pub open spec fn repeated(unit: Seq<char>, count: nat) -> Seq<char>
    decreases count,
{
    if count == 0 {
        Seq::empty()
    } else {
        repeated(unit, (count - 1) as nat) + unit
    }
}

/// The smaller of two numbers.
pub open spec fn least(one: int, other: int) -> int {
    if one <= other {
        one
    } else {
        other
    }
}

/// A line cut in three around a span.
pub struct Excerpt {
    /// Up to eight characters before the span.
    pub prefix: Seq<char>,
    /// The part of the line that the span covers.
    pub span: Seq<char>,
    /// Up to eight characters after the span.
    pub suffix: Seq<char>,
}

/// `line` cut around the span that starts at byte `column` of the line and
/// is `length` bytes long. What of the span lies beyond the line is left
/// out.
pub open spec fn excerpt(line: Seq<char>, column: nat, length: nat) -> Excerpt {
    let from = char_index_at(line, column) as int;
    let to = char_index_at(line, column + length) as int;
    Excerpt {
        prefix: line.subrange(from - least(from, PREFIX_LENGTH as int), from),
        span: line.subrange(from, to),
        suffix: line.subrange(to, least(to + PREFIX_LENGTH, line.len() as int)),
    }
}

/// The column, in bytes, of byte offset `start` within its line.
pub open spec fn column_of(text: Seq<char>, start: nat) -> nat {
    let line_start = line_start_offset(text, line_index_of(text, start));
    if start >= line_start {
        (start - line_start) as nat
    } else {
        0
    }
}

/// How `diagnostic` is shown against `text`, with `highlight` to switch the
/// colour of the span on: the excerpt of the line, the carets, a bar, and
/// the message, on four lines.
pub open spec fn rendering(text: Seq<char>, diagnostic: DiagnosticView, highlight: Seq<char>) -> Seq<
    char,
> {
    let line = line_text(text, line_index_of(text, diagnostic.span.start));
    let column = column_of(text, diagnostic.span.start);
    let length = diagnostic.span.length();
    let parts = excerpt(line, column, length);
    let indent = repeated(" "@, least(PREFIX_LENGTH as int, column as int) as nat);
    parts.prefix + highlight + parts.span + reset_code() + parts.suffix + "\n"@ + (indent
        + repeated("^"@, length)) + "\n"@ + (indent + "|"@) + "\n"@ + (indent + "+-- "@
        + diagnostic.message)
}

/// A bigger window holds a bigger index.
proof fn lemma_char_index_monotone(text: Seq<char>, from: nat, low: int, high: int)
    requires
        from <= text.len(),
        low <= high,
    ensures
        skip_bytes(text, from, low) <= skip_bytes(text, from, high),
    decreases text.len() - from,
{
    if from < text.len() {
        if low > 0 {
            let width = utf8_width(text[from as int]);
            lemma_char_index_monotone(text, from + 1, low - width, high - width);
        } else {
            lemma_skip_bounds(text, from, high, 0);
        }
    }
}

/// `unit`, `count` times over.
fn repeat(unit: &str, count: usize) -> (text: String)
    ensures
        text@ == repeated(unit@, count as nat),
{
    let mut text = String::new();
    let mut done: usize = 0;
    while done < count
        invariant
            done <= count,
            text@ == repeated(unit@, done as nat),
        decreases count - done,
    {
        text.append(unit);
        done += 1;
    }
    text
}

/// Renders the diagnostics of one source text.
#[derive(Debug)]
pub struct DiagnosticsPrinter<'a> {
    pub text: &'a SourceText,
    pub diagnostics: &'a [Diagnostics],
}

impl<'a> DiagnosticsPrinter<'a> {
    pub fn new(text: &'a SourceText, diagnostics: &'a [Diagnostics]) -> (printer: Self)
        ensures
            printer.text == text,
            printer.diagnostics == diagnostics,
    {
        Self { text, diagnostics }
    }

    /// `diagnostic` as it is shown, the span in red where the environment
    /// lets the terminal have colours, and uncoloured where it does not.
    pub fn stringify_diagnostic(&self, diagnostic: &Diagnostics) -> (text: String)
        ensures
            text@ == rendering(self.text@, diagnostic@, red_code()) || text@ == rendering(
                self.text@,
                diagnostic@,
                Seq::empty(),
            ),
    {
        let highlight = red_highlight();
        self.stringify_with(diagnostic, highlight.as_str())
    }

    /// `diagnostic` as it is shown, with `highlight` to switch the colour
    /// of the span on.
    pub fn stringify_with(&self, diagnostic: &Diagnostics, highlight: &str) -> (text: String)
        ensures
            text@ == rendering(self.text@, diagnostic@, highlight@),
    {
        let line_index = self.text.line_index(diagnostic.span.start);
        let line = self.text.get_line(line_index);
        let line_start = self.text.line_start(line_index);
        let col = if diagnostic.span.start >= line_start {
            diagnostic.span.start - line_start
        } else {
            0
        };
        let (prefix, span, suffix) = Self::get_text_span(diagnostic, line, col);
        let indent = if PREFIX_LENGTH <= col {
            PREFIX_LENGTH
        } else {
            col
        };
        let (arrow_pointers, arrow_line) = Self::format_arrow(diagnostic, indent);
        let mut text = prefix.to_owned();
        text.append(highlight);
        text.append(span);
        text.append(reset());
        text.append(suffix);
        text.append("\n");
        text.append(arrow_pointers.as_str());
        text.append("\n");
        text.append(arrow_line.as_str());
        text.append("\n");
        text.append(repeat(" ", indent).as_str());
        text.append("+-- ");
        text.append(diagnostic.message.as_str());
        text
    }

    /// The row of carets under the span and the bar under its first
    /// character, both indented by `indent`.
    fn format_arrow(diagnostic: &Diagnostics, indent: usize) -> (arrows: (String, String))
        ensures
            arrows.0@ == repeated(" "@, indent as nat) + repeated(
                "^"@,
                diagnostic@.span.length(),
            ),
            arrows.1@ == repeated(" "@, indent as nat) + "|"@,
    {
        let mut arrow_pointers = repeat(" ", indent);
        arrow_pointers.append(repeat("^", Self::span_length(diagnostic)).as_str());
        let mut arrow_line = repeat(" ", indent);
        arrow_line.append("|");
        (arrow_pointers, arrow_line)
    }

    /// `line` cut in three around the span of `diagnostic`, which starts at
    /// byte `column` of the line.
    fn get_text_span<'b>(diagnostic: &Diagnostics, line: &'b str, column: usize) -> (parts: (
        &'b str,
        &'b str,
        &'b str,
    ))
        requires
            column <= diagnostic@.span.start,
        ensures
            ({
                let cut = excerpt(line@, column as nat, diagnostic@.span.length());
                &&& parts.0@ == cut.prefix
                &&& parts.1@ == cut.span
                &&& parts.2@ == cut.suffix
            }),
    {
        let length = line.unicode_len();
        let from = char_index(line, column);
        let to = char_index(line, column + Self::span_length(diagnostic));
        proof {
            lemma_char_index_monotone(
                line@,
                0,
                column as int,
                column + diagnostic@.span.length(),
            );
        }
        let prefix_start = if from >= PREFIX_LENGTH {
            from - PREFIX_LENGTH
        } else {
            0
        };
        let suffix_end = if length - to >= PREFIX_LENGTH {
            to + PREFIX_LENGTH
        } else {
            length
        };
        (
            line.substring_char(prefix_start, from),
            line.substring_char(from, to),
            line.substring_char(to, suffix_end),
        )
    }

    /// The number of bytes in the span of `diagnostic`.
    fn span_length(diagnostic: &Diagnostics) -> (length: usize)
        ensures
            length == diagnostic@.span.length(),
    {
        if diagnostic.span.start <= diagnostic.span.end {
            diagnostic.span.length()
        } else {
            0
        }
    }

    /// All diagnostics as they are shown, in order.
    pub fn stringify_all(&self) -> (texts: Vec<String>)
        ensures
            texts@.len() == self.diagnostics@.len(),
            forall|index: int|
                0 <= index < texts@.len() ==> {
                    ||| (#[trigger] texts@[index])@ == rendering(
                        self.text@,
                        self.diagnostics@[index]@,
                        red_code(),
                    )
                    ||| texts@[index]@ == rendering(
                        self.text@,
                        self.diagnostics@[index]@,
                        Seq::empty(),
                    )
                },
    {
        let mut texts: Vec<String> = Vec::new();
        let mut done: usize = 0;
        while done < self.diagnostics.len()
            invariant
                done <= self.diagnostics@.len(),
                texts@.len() == done,
                forall|index: int|
                    0 <= index < texts@.len() ==> {
                        ||| (#[trigger] texts@[index])@ == rendering(
                            self.text@,
                            self.diagnostics@[index]@,
                            red_code(),
                        )
                        ||| texts@[index]@ == rendering(
                            self.text@,
                            self.diagnostics@[index]@,
                            Seq::empty(),
                        )
                    },
            decreases self.diagnostics@.len() - done,
        {
            let text = self.stringify_diagnostic(&self.diagnostics[done]);
            texts.push(text);
            done += 1;
        }
        texts
    }
}

} // verus!
