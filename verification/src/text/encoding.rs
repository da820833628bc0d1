//! Byte lengths of character sequences under UTF-8.

use vstd::prelude::*;
use vstd::utf8::*;

verus! {

/// The number of bytes that `c` takes in UTF-8.
pub open spec fn utf8_width(c: char) -> nat {
    encode_scalar(c as u32).len()
}

/// The number of bytes that `s` takes in UTF-8.
pub open spec fn utf8_len(s: Seq<char>) -> nat {
    encode_utf8(s).len()
}

/// The encoding of a concatenation is the concatenation of the encodings.
pub proof fn lemma_encode_concat(a: Seq<char>, b: Seq<char>)
    ensures
        encode_utf8(a + b) == encode_utf8(a) + encode_utf8(b),
    decreases a.len(),
{
    if a.len() > 0 {
        assert((a + b).drop_first() =~= a.drop_first() + b);
        lemma_encode_concat(a.drop_first(), b);
    }
}

/// Byte lengths add up over concatenation.
pub proof fn lemma_utf8_len_concat(a: Seq<char>, b: Seq<char>)
    ensures
        utf8_len(a + b) == utf8_len(a) + utf8_len(b),
{
    lemma_encode_concat(a, b);
}

/// Appending one character adds its width.
pub proof fn lemma_utf8_len_push(s: Seq<char>, c: char)
    ensures
        utf8_len(s.push(c)) == utf8_len(s) + utf8_width(c),
{
    let one = seq![c];
    assert(encode_utf8(one) =~= encode_scalar(c as u32)) by {
        reveal_with_fuel(encode_utf8, 2);
    }
    assert(s.push(c) =~= s + one);
    lemma_utf8_len_concat(s, one);
}

/// A prefix is no longer than the whole, and a longer prefix is no shorter
/// than a shorter one.
pub proof fn lemma_utf8_len_prefix(s: Seq<char>, i: int, j: int)
    requires
        0 <= i <= j <= s.len(),
    ensures
        utf8_len(s.take(i)) + utf8_len(s.subrange(i, j)) == utf8_len(s.take(j)),
        utf8_len(s.take(j)) <= utf8_len(s),
{
    assert(s.take(j) =~= s.take(i) + s.subrange(i, j));
    lemma_utf8_len_concat(s.take(i), s.subrange(i, j));
    assert(s =~= s.take(j) + s.skip(j));
    lemma_utf8_len_concat(s.take(j), s.skip(j));
}

/// On ASCII text the byte length is the number of characters.
pub proof fn lemma_utf8_len_ascii(s: Seq<char>)
    requires
        is_ascii_chars(s),
    ensures
        utf8_len(s) == s.len(),
{
    is_ascii_chars_encode_utf8(s);
}

/// The number of bytes that `c` takes in UTF-8.
pub fn char_width(c: char) -> (width: usize)
    ensures
        width == utf8_width(c),
        1 <= width <= 4,
{
    let code: u32 = c as u32;
    if code < 0x80 {
        1
    } else if code < 0x800 {
        2
    } else if code < 0x1_0000 {
        3
    } else {
        4
    }
}

/// The number of bytes in `s`.
pub fn byte_length(s: &str) -> (length: usize)
    ensures
        length == utf8_len(s@),
{
    s.as_bytes().len()
}

} // verus!
