//! Text as a sequence of characters addressed by character offset.

use vstd::prelude::*;

verus! {

/// The characters of `s`, in order.
pub fn chars_of(s: &str) -> (out: Vec<char>)
    ensures
        out@ == s@,
{
    let mut out: Vec<char> = Vec::new();
    for c in it: s.chars()
        invariant
            it.seq() == s@,
            out@ == s@.take(it.index() as int),
    {
        out.push(c);
    }
    out
}

/// Whether `char::is_alphanumeric` holds of `c`.
pub uninterp spec fn is_alphanumeric(c: char) -> bool;

/// `char::is_alphanumeric`; the claim is only that the result depends on
/// the character alone.
#[verifier::external_body]
pub(crate) fn char_is_alphanumeric(c: char) -> (out: bool)
    ensures
        out == is_alphanumeric(c),
{
    c.is_alphanumeric()
}

/// Whether `c` belongs to a word: a letter, a digit or an underscore.
pub open spec fn is_word_char(c: char) -> bool {
    is_alphanumeric(c) || c == '_'
}

/// Whether `c` belongs to a word.
pub fn char_is_word(c: char) -> (out: bool)
    ensures
        out == is_word_char(c),
{
    char_is_alphanumeric(c) || c == '_'
}

/// Where the word that ends at `cursor` starts; `cursor` itself where no
/// word character stands before it.
pub open spec fn word_start(text: Seq<char>, cursor: int) -> int
    decreases cursor,
{
    if 0 < cursor <= text.len() && is_word_char(text[cursor - 1]) {
        word_start(text, cursor - 1)
    } else {
        cursor
    }
}

/// The part of a word that stands right before `cursor`, the cursor
/// taken as the end of the text where it lies beyond.
pub open spec fn word_before(text: Seq<char>, cursor: int) -> Seq<char> {
    let end = if cursor <= text.len() {
        cursor
    } else {
        text.len() as int
    };
    text.subrange(word_start(text, end), end)
}

/// A word starts at or before the cursor it ends at, inside the text.
pub proof fn lemma_word_start_bounds(text: Seq<char>, cursor: int)
    requires
        0 <= cursor <= text.len(),
    ensures
        0 <= word_start(text, cursor) <= cursor,
    decreases cursor,
{
    if 0 < cursor && is_word_char(text[cursor - 1]) {
        lemma_word_start_bounds(text, cursor - 1);
    }
}

/// The part of a word that stands right before `cursor`.
pub fn fragment_before(text: &Vec<char>, cursor: usize) -> (out: Vec<char>)
    ensures
        out@ == word_before(text@, cursor as int),
{
    let end = if cursor <= text.len() {
        cursor
    } else {
        text.len()
    };
    let mut start: usize = end;
    while start > 0 && char_is_word(text[start - 1])
        invariant
            start <= end <= text.len(),
            word_start(text@, start as int) == word_start(text@, end as int),
        decreases start,
    {
        start -= 1;
    }
    let mut out: Vec<char> = Vec::new();
    let mut i: usize = start;
    while i < end
        invariant
            start <= i <= end <= text.len(),
            out@ == text@.subrange(start as int, i as int),
        decreases end - i,
    {
        out.push(text[i]);
        i += 1;
    }
    out
}

} // verus!
