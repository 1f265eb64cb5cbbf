//! Fuzzy scores, as the `nucleo` matcher gives them.

use nucleo::pattern::{Atom, AtomKind, CaseMatching, Normalization};
use nucleo::{Config, Matcher, Utf32Str};
use vstd::prelude::*;
use vstd::string::StringSliceAdditionalSpecFns;

verus! {

/// `nucleo::Matcher`: the matcher's settings and its scratch memory.
#[verifier::external_type_specification]
#[verifier::external_body]
pub struct ExMatcher(Matcher);

/// The score that `nucleo` gives `text` for the fuzzy pattern `pattern`,
/// case ignored and with smart normalisation, under the matcher's default
/// settings; `None` where `text` does not match.
pub uninterp spec fn fuzzy_score(pattern: Seq<char>, text: Seq<char>) -> Option<u16>;

/// The longest pattern the matcher is given. The matcher adds up a score
/// in 16 bits: at most 36 for the first matched character and at most 26
/// for each further one, so that 2520 characters stay within the 16 bits
/// and 2521 need not.
pub const MAX_PATTERN_LEN: usize = 2520;

/// What `nucleo::chars::to_lower_case` makes of `c`: its simple case
/// folding.
pub uninterp spec fn folded(c: char) -> char;

/// What `nucleo::chars::normalize` makes of `c`: the plain letter behind
/// an accented one.
pub uninterp spec fn normalized(c: char) -> char;

/// Whether `char::is_lowercase` holds of `c`.
pub uninterp spec fn is_lowercase(c: char) -> bool;

/// `nucleo::chars::to_lower_case`; the claim is only that the result
/// depends on the character alone.
#[verifier::external_body]
pub(crate) fn fold_case(c: char) -> (out: char)
    ensures
        out == folded(c),
{
    nucleo::chars::to_lower_case(c)
}

/// `nucleo::chars::normalize`; the claim is only that the result depends
/// on the character alone.
#[verifier::external_body]
pub(crate) fn normalize_char(c: char) -> (out: char)
    ensures
        out == normalized(c),
{
    nucleo::chars::normalize(c)
}

/// `char::is_lowercase`; the claim is only that the result depends on
/// the character alone.
#[verifier::external_body]
pub(crate) fn char_is_lowercase(c: char) -> (out: bool)
    ensures
        out == is_lowercase(c),
{
    c.is_lowercase()
}

/// No character of the pattern, its case folded, is an accented form of
/// another: the matcher then normalises the text.
pub open spec fn plain_pattern(pattern: Seq<char>) -> bool {
    forall|i: int| 0 <= i < pattern.len() ==> normalized(folded(#[trigger] pattern[i])) == folded(pattern[i])
}

/// No lowercase character of the text is changed by case folding, as the
/// long s, the micro sign and the final sigma are.
pub open spec fn folds_evenly(text: Seq<char>) -> bool {
    forall|i: int| 0 <= i < text.len() && is_lowercase(#[trigger] text[i]) ==> folded(text[i]) == text[i]
}

/// Whether the matcher takes `text` for `pattern`:
/// - the pattern has at most [`MAX_PATTERN_LEN`] characters, the text's
///   UTF-8 form has at most `u32::MAX` bytes, and the product of the two
///   lengths is one the machine can count to;
/// - the pattern is plain or the text folds evenly. For a pattern with an
///   accented character the matcher leaves the text unnormalised, and
///   then folds the case of a lowercase character in one place and not in
///   another; a text with such a character is kept from it.
pub open spec fn fits_matcher(pattern: Seq<char>, text: Seq<char>) -> bool {
    let bytes = vstd::utf8::encode_utf8(text).len();
    &&& pattern.len() <= MAX_PATTERN_LEN
    &&& bytes <= u32::MAX
    &&& bytes * pattern.len() <= usize::MAX
    &&& plain_pattern(pattern) || folds_evenly(text)
}

/// The score of `text` for `pattern`; what the matcher does not take
/// does not match: a pattern longer than [`MAX_PATTERN_LEN`] matches
/// nothing, a text too long for the pattern is not matched by it, and
/// neither is a text that does not fold evenly by a pattern that is not
/// plain.
pub open spec fn match_score(pattern: Seq<char>, text: Seq<char>) -> Option<u16> {
    if fits_matcher(pattern, text) {
        fuzzy_score(pattern, text)
    } else {
        None
    }
}

/// `nucleo::Matcher::new` with `Config::DEFAULT`. Nothing is claimed of
/// the matcher it returns.
#[verifier::external_body]
pub(crate) fn new_matcher() -> Matcher {
    Matcher::new(Config::DEFAULT)
}

/// `nucleo::pattern::Atom::score` of an atom made by `Atom::new` from
/// `pattern` (fuzzy, case ignored, smart normalisation, no escapes), on a
/// matcher set back to `Config::DEFAULT`.
///
/// Claimed: the result depends on `pattern` and `text` alone, and the
/// empty pattern scores 0 on every text. `requires` keeps out what the
/// matcher goes wrong on:
/// - a haystack longer than `u32::MAX`, counted in bytes or in characters
///   as it chooses to read the text (the bytes are never fewer than the
///   characters);
/// - a needle so long that the score, summed in 16 bits with up to 26 for
///   each character after the first 36, would pass `u16::MAX`;
/// - lengths of haystack and needle, the needle no longer than the
///   pattern, whose product it cannot hold;
/// - a needle for which normalisation is switched off, on a haystack
///   with a character that `char::is_lowercase` holds of and
///   `to_lower_case` changes: the prefilter folds it and the matrix does
///   not, and the two then disagree on where the match starts.
#[verifier::external_body]
pub(crate) fn atom_score(matcher: &mut Matcher, pattern: &Vec<char>, text: &str) -> (out: Option<u16>)
    requires
        fits_matcher(pattern@, text@),
    ensures
        out == fuzzy_score(pattern@, text@),
        pattern@.len() == 0 ==> out == Some(0u16),
{
    matcher.config = Config::DEFAULT;
    let needle: String = pattern.iter().collect();
    let atom = Atom::new(
        &needle,
        CaseMatching::Ignore,
        Normalization::Smart,
        AtomKind::Fuzzy,
        false,
    );
    let mut buf = Vec::new();
    atom.score(Utf32Str::new(text, &mut buf), matcher)
}

/// Whether the pattern is plain; see [`plain_pattern`].
pub fn is_plain_pattern(pattern: &Vec<char>) -> (out: bool)
    ensures
        out == plain_pattern(pattern@),
{
    let mut i: usize = 0;
    while i < pattern.len()
        invariant
            i <= pattern.len(),
            forall|k: int| 0 <= k < i ==> normalized(folded(#[trigger] pattern@[k])) == folded(pattern@[k]),
        decreases pattern.len() - i,
    {
        let lower = fold_case(pattern[i]);
        if normalize_char(lower) != lower {
            return false;
        }
        i += 1;
    }
    true
}

/// Whether the text folds evenly; see [`folds_evenly`].
pub fn is_even_text(text: &str) -> (out: bool)
    ensures
        out == folds_evenly(text@),
{
    let mut even = true;
    for c in it: text.chars()
        invariant
            it.seq() == text@,
            even == folds_evenly(text@.take(it.index())),
    {
        proof {
            let shorter = text@.take(it.index());
            let longer = text@.take(it.index() + 1);
            assert(longer[it.index()] == c);
            assert forall|k: int| 0 <= k < shorter.len() implies shorter[k] == longer[k] by {}
            if folds_evenly(longer) {
                assert forall|k: int| 0 <= k < shorter.len() && is_lowercase(
                    #[trigger] shorter[k],
                ) implies folded(shorter[k]) == shorter[k] by {
                    assert(longer[k] == shorter[k]);
                }
            }
        }
        if char_is_lowercase(c) && fold_case(c) != c {
            even = false;
        }
    }
    assert(text@.take(text@.len() as int) =~= text@);
    even
}

/// The score of `text` for `pattern`; see [`match_score`]. What the
/// matcher does not take gets `None`.
pub fn score_text(matcher: &mut Matcher, pattern: &Vec<char>, text: &str) -> (out: Option<u16>)
    ensures
        out == match_score(pattern@, text@),
        pattern@.len() == 0 && fits_matcher(pattern@, text@) ==> out == Some(0u16),
{
    let bytes = text.as_bytes().len();
    if pattern.len() > MAX_PATTERN_LEN || bytes > u32::MAX as usize {
        return None;
    }
    if bytes.checked_mul(pattern.len()).is_none() {
        return None;
    }
    if !is_plain_pattern(pattern) && !is_even_text(text) {
        return None;
    }
    atom_score(matcher, pattern, text)
}

} // verus!
