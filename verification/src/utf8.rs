//! Characters and bytes: the width of a character in UTF-8, the byte
//! length of a text, and the decoding of a text into its characters.

use vstd::prelude::*;
use vstd::std_specs::iter::IteratorSpec;
use vstd::utf8::{char_is_scalar, encode_utf8};

verus! {

/// The number of bytes that a character takes in UTF-8.
pub open spec fn char_width(c: char) -> nat {
    let v = c as u32;
    if v < 0x80 {
        1
    } else if v < 0x800 {
        2
    } else if v < 0x10000 {
        3
    } else {
        4
    }
}

/// The number of bytes that a text takes in UTF-8.
pub open spec fn byte_len(text: Seq<char>) -> nat
    decreases text.len(),
{
    if text.len() == 0 {
        0
    } else {
        byte_len(text.drop_last()) + char_width(text.last())
    }
}

/// The number of bytes that `c` takes in UTF-8.
pub fn utf8_width(c: char) -> (width: usize)
    ensures
        width == char_width(c),
        1 <= width <= 4,
{
    let v: u32 = c as u32;
    if v < 0x80 {
        1
    } else if v < 0x800 {
        2
    } else if v < 0x10000 {
        3
    } else {
        4
    }
}

/// Decodes a text into its characters.
pub fn decode(text: &str) -> (chars: Vec<char>)
    ensures
        chars@ == text@,
{
    let mut chars: Vec<char> = Vec::new();
    let mut rest = text.chars();
    loop
        invariant
            rest.obeys_prophetic_iter_laws(),
            rest.decrease() is Some,
            chars@ + rest.remaining() == text@,
        ensures
            chars@ == text@,
        decreases rest.decrease()->0,
    {
        broadcast use vstd::string::group_string_axioms;

        match rest.next() {
            Some(c) => {
                chars.push(c);
            },
            None => {
                assert(chars@ =~= text@);
                break ;
            },
        }
    }
    chars
}

/// Adding the character at `i` to a prefix adds its width to the prefix's
/// byte length.
pub proof fn lemma_byte_len_step(text: Seq<char>, i: int)
    requires
        0 <= i < text.len(),
    ensures
        byte_len(text.take(i + 1)) == byte_len(text.take(i)) + char_width(text[i]),
{
    assert(text.take(i + 1).drop_last() =~= text.take(i));
}

/// A prefix is shorter in bytes than the whole text by at least one byte
/// for each character that is left.
pub proof fn lemma_byte_len_prefix(text: Seq<char>, i: int)
    requires
        0 <= i <= text.len(),
    ensures
        byte_len(text.take(i)) + (text.len() - i) <= byte_len(text),
    decreases text.len() - i,
{
    if i < text.len() {
        lemma_byte_len_step(text, i);
        lemma_byte_len_prefix(text, i + 1);
    } else {
        assert(text.take(i) =~= text);
    }
}

/// A shorter prefix is not longer in bytes than a longer one.
pub proof fn lemma_byte_len_between(text: Seq<char>, i: int, j: int)
    requires
        0 <= i <= j <= text.len(),
    ensures
        byte_len(text.take(i)) + (j - i) <= byte_len(text.take(j)),
    decreases j - i,
{
    if i < j {
        lemma_byte_len_step(text, i);
        lemma_byte_len_between(text, i + 1, j);
    }
}

/// The byte length of a text is the length of its UTF-8 encoding.
pub proof fn lemma_byte_len_is_encoding(text: Seq<char>)
    ensures
        byte_len(text) == encode_utf8(text).len(),
    decreases text.len(),
{
    if text.len() > 0 {
        lemma_byte_len_is_encoding(text.drop_last());
        lemma_encoding_push(text.drop_last(), text.last());
        assert(text.drop_last().push(text.last()) =~= text);
    }
}

proof fn lemma_encoding_push(text: Seq<char>, c: char)
    ensures
        encode_utf8(text.push(c)).len() == encode_utf8(text).len()
            + char_width(c),
    decreases text.len(),
{
    let more = text.push(c);
    if text.len() == 0 {
        char_is_scalar(c);
        assert(more.drop_first() =~= Seq::<char>::empty());
        assert(encode_utf8(more.drop_first()).len() == 0);
    } else {
        assert(more.drop_first() =~= text.drop_first().push(c));
        lemma_encoding_push(text.drop_first(), c);
    }
}

} // verus!
