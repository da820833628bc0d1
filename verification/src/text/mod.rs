//! The source text and its lines; UTF-8 lengths, character classes and
//! decimal numbers.

use vstd::prelude::*;
use vstd::string::*;
use crate::text::encoding::{
    byte_length, char_width, lemma_utf8_len_prefix, lemma_utf8_len_push, utf8_len, utf8_width,
};

pub mod classes;
pub mod decimal;
pub mod encoding;

verus! {

/// The index of the first character, from `from` on, that starts `offset`
/// bytes or more after the character `from`; the length of the text if
/// there is none.
pub open spec fn skip_bytes(text: Seq<char>, from: nat, offset: int) -> nat
    decreases text.len() - from,
{
    if from < text.len() && offset > 0 {
        skip_bytes(text, from + 1, offset - utf8_width(text[from as int]))
    } else if from < text.len() {
        from
    } else {
        text.len()
    }
}

/// The index of the first character that starts at byte `offset` or after
/// it.
pub open spec fn char_index_at(text: Seq<char>, offset: nat) -> nat {
    skip_bytes(text, 0, offset as int)
}

/// The number of line feeds in `text`.
pub open spec fn line_feeds(text: Seq<char>) -> nat
    decreases text.len(),
{
    if text.len() == 0 {
        0
    } else {
        line_feeds(text.drop_last()) + if text.last() == '\n' {
            1nat
        } else {
            0nat
        }
    }
}

/// The index of the character with which the line that comes `lines` line
/// feeds after the character `from` starts.
pub open spec fn skip_lines(text: Seq<char>, from: nat, lines: nat) -> nat
    decreases text.len() - from,
{
    if from < text.len() && lines > 0 {
        skip_lines(
            text,
            from + 1,
            if text[from as int] == '\n' {
                (lines - 1) as nat
            } else {
                lines
            },
        )
    } else if from < text.len() {
        from
    } else {
        text.len()
    }
}

/// The index of the first line feed at `from` or after it; the length of
/// the text if there is none.
pub open spec fn line_end(text: Seq<char>, from: nat) -> nat
    decreases text.len() - from,
{
    if from < text.len() && text[from as int] != '\n' {
        line_end(text, from + 1)
    } else if from < text.len() {
        from
    } else {
        text.len()
    }
}

/// The index of the line in which byte `offset` lies, counted from 0: the
/// number of line feeds before it.
pub open spec fn line_index_of(text: Seq<char>, offset: nat) -> nat {
    line_feeds(text.take(char_index_at(text, offset) as int))
}

/// The index of the character with which line `index` starts.
pub open spec fn line_start_index(text: Seq<char>, index: nat) -> nat {
    skip_lines(text, 0, index)
}

/// The index of the character after the last one of line `index`. The line
/// feed that ends the line is no part of it, nor is a carriage return right
/// before that line feed.
pub open spec fn line_stop_index(text: Seq<char>, index: nat) -> nat {
    let start = line_start_index(text, index);
    let end = line_end(text, start);
    if start < end && end < text.len() && text[end - 1] == '\r' {
        (end - 1) as nat
    } else {
        end
    }
}

/// The text of line `index`, without what ends the line.
pub open spec fn line_text(text: Seq<char>, index: nat) -> Seq<char> {
    text.subrange(line_start_index(text, index) as int, line_stop_index(text, index) as int)
}

/// The byte offset at which line `index` starts.
pub open spec fn line_start_offset(text: Seq<char>, index: nat) -> nat {
    utf8_len(text.take(line_start_index(text, index) as int))
}

/// Skipping ends within the text, at or after the place it started from.
pub proof fn lemma_skip_bounds(text: Seq<char>, from: nat, offset: int, lines: nat)
    requires
        from <= text.len(),
    ensures
        from <= skip_bytes(text, from, offset) <= text.len(),
        from <= skip_lines(text, from, lines) <= text.len(),
        from <= line_end(text, from) <= text.len(),
    decreases text.len() - from,
{
    if from < text.len() {
        lemma_skip_bounds(
            text,
            from + 1,
            offset - utf8_width(text[from as int]),
            if text[from as int] == '\n' {
                (lines - 1) as nat
            } else {
                lines
            },
        );
        lemma_skip_bounds(text, from + 1, offset, lines);
    }
}

/// The index of the first character of `text` that starts at byte `offset`
/// or after it; the number of characters if there is none.
pub fn char_index(text: &str, offset: usize) -> (index: usize)
    ensures
        index == char_index_at(text@, offset as nat),
        index <= text@.len(),
{
    let length = text.unicode_len();
    let mut index: usize = 0;
    let mut left: usize = offset;
    while index < length && left > 0
        invariant
            length == text@.len(),
            index <= length,
            skip_bytes(text@, index as nat, left as int) == char_index_at(text@, offset as nat),
        decreases length - index,
    {
        let width = char_width(text.get_char(index));
        let ghost before = left as int;
        if width >= left {
            left = 0;
        } else {
            left -= width;
        }
        index += 1;
        assert(skip_bytes(text@, index as nat, left as int) == skip_bytes(
            text@,
            index as nat,
            before - width,
        ));
    }
    index
}

/// A source text, for finding the line that a byte offset lies in.
#[derive(Debug)]
pub struct SourceText {
    text: String,
}

impl View for SourceText {
    type V = Seq<char>;

    closed spec fn view(&self) -> Seq<char> {
        self.text@
    }
}

impl SourceText {
    pub fn new(text: String) -> (source: Self)
        ensures
            source@ == text@,
    {
        Self { text }
    }

    /// The index of the line in which byte `pos` lies, counted from 0.
    pub fn line_index(&self, pos: usize) -> (index: usize)
        ensures
            index == line_index_of(self@, pos as nat),
    {
        let text = self.text.as_str();
        let stop = char_index(text, pos);
        let mut index: usize = 0;
        let mut at: usize = 0;
        while at < stop
            invariant
                text@ == self@,
                at <= stop <= self@.len(),
                index <= at,
                index == line_feeds(self@.take(at as int)),
            decreases stop - at,
        {
            let c = text.get_char(at);
            assert(self@.take(at + 1).drop_last() =~= self@.take(at as int));
            if c == '\n' {
                index += 1;
            }
            at += 1;
        }
        index
    }

    /// The index of the character with which line `index` starts.
    fn line_start_char(&self, index: usize) -> (start: usize)
        ensures
            start == line_start_index(self@, index as nat),
            start <= self@.len(),
    {
        let text = self.text.as_str();
        let length = text.unicode_len();
        let mut at: usize = 0;
        let mut left: usize = index;
        while at < length && left > 0
            invariant
                text@ == self@,
                length == self@.len(),
                at <= length,
                skip_lines(self@, at as nat, left as nat) == line_start_index(self@, index as nat),
            decreases length - at,
        {
            if text.get_char(at) == '\n' {
                left -= 1;
            }
            at += 1;
        }
        at
    }

    /// The text of line `index`, without what ends the line. Past the last
    /// line it is empty.
    pub fn get_line(&self, index: usize) -> (line: &str)
        ensures
            line@ == line_text(self@, index as nat),
    {
        let text = self.text.as_str();
        let length = text.unicode_len();
        let start = self.line_start_char(index);
        let mut end = start;
        while end < length && text.get_char(end) != '\n'
            invariant
                text@ == self@,
                length == self@.len(),
                start <= end <= length,
                line_end(self@, end as nat) == line_end(self@, start as nat),
            decreases length - end,
        {
            end += 1;
        }
        if start < end && end < length && text.get_char(end - 1) == '\r' {
            end -= 1;
        }
        text.substring_char(start, end)
    }

    /// The byte offset at which line `index` starts.
    pub fn line_start(&self, index: usize) -> (offset: usize)
        ensures
            offset == line_start_offset(self@, index as nat),
    {
        let text = self.text.as_str();
        let start = self.line_start_char(index);
        let total = byte_length(text);
        let mut offset: usize = 0;
        let mut at: usize = 0;
        while at < start
            invariant
                text@ == self@,
                at <= start <= self@.len(),
                offset == utf8_len(self@.take(at as int)),
                total == utf8_len(self@),
            decreases start - at,
        {
            let width = char_width(text.get_char(at));
            proof {
                assert(self@.take(at + 1) =~= self@.take(at as int).push(self@[at as int]));
                lemma_utf8_len_push(self@.take(at as int), self@[at as int]);
                lemma_utf8_len_prefix(self@, at as int, at + 1);
            }
            offset += width;
            at += 1;
        }
        offset
    }
}

} // verus!
