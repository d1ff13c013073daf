//! Text helpers: lengths in bytes and in characters, and building strings
//! one character at a time.

use vstd::prelude::*;
use vstd::utf8::encode_utf8;

verus! {

/// Number of bytes that the UTF-8 encoding of `text` occupies.
pub open spec fn byte_len(text: Seq<char>) -> nat {
    encode_utf8(text).len()
}

/// A text has at most as many characters as bytes.
pub proof fn lemma_chars_within_bytes(text: Seq<char>)
    ensures
        text.len() <= byte_len(text),
    decreases text.len(),
{
    if text.len() > 0 {
        lemma_chars_within_bytes(text.drop_first());
    }
}

/// Only the empty text has no bytes.
pub proof fn lemma_empty_has_no_bytes(text: Seq<char>)
    ensures
        byte_len(text) == 0 <==> text.len() == 0,
{
    lemma_chars_within_bytes(text);
}

/// Length of `text` in bytes.
pub fn text_byte_len(text: &str) -> (len: usize)
    ensures
        len == byte_len(text@),
        text@.len() <= len,
{
    proof {
        lemma_chars_within_bytes(text@);
    }
    text.as_bytes().len()
}

/// Calls `String::push`. Trusted to append the one character `c` to `text`
/// and to change nothing else.
#[verifier::external_body]
pub(crate) fn push_char(text: &mut String, c: char)
    ensures
        final(text)@ == old(text)@.push(c),
{
    text.push(c)
}

/// The string that holds the one character `c`.
pub fn char_string(c: char) -> (text: String)
    ensures
        text@ == seq![c],
{
    let mut text = String::new();
    push_char(&mut text, c);
    text
}

} // verus!
