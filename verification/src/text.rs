//! Prefix tests on strings, stated over the `Seq<char>` view of a string.
use vstd::prelude::*;

verus! {

/// The character that BPE vocabularies put in front of a word-initial token.
pub open spec fn bpe_word_start() -> Seq<char> {
    "\u{120}"@
}

/// The character that Unigram (SentencePiece) vocabularies put in front of a
/// word-initial token.
pub open spec fn unigram_word_start() -> Seq<char> {
    "\u{2581}"@
}

/// The mark that WordPiece vocabularies put in front of a token that
/// continues a word.
pub open spec fn wordpiece_continuation() -> Seq<char> {
    "##"@
}

/// What a token of a word-level vocabulary is converted to: word-level
/// vocabularies have no sub-word marks to translate.
pub open spec fn word_level_placeholder() -> Seq<char> {
    "WordLevelCase"@
}

/// What a Unigram token without the word-start mark becomes when it is
/// converted to BPE.
pub open spec fn unmarked_unigram_placeholder() -> Seq<char> {
    "Aint do shit"@
}

/// Whether `prefix` is a prefix of `s`, character by character.
pub(crate) fn str_starts_with(s: &str, prefix: &str) -> (b: bool)
    ensures
        b == prefix@.is_prefix_of(s@),
{
    let n = s.unicode_len();
    let m = prefix.unicode_len();
    if m > n {
        false
    } else {
        let head = s.substring_char(0, m).to_string();
        let p = prefix.to_string();
        let b = head == p;
        assert(b <==> prefix@ =~= s@.subrange(0, m as int));
        b
    }
}

/// The rest of `s` after `prefix` when `s` starts with `prefix`, and `None`
/// otherwise.
pub(crate) fn str_strip_prefix<'a>(s: &'a str, prefix: &str) -> (r: Option<&'a str>)
    ensures
        r is Some <==> prefix@.is_prefix_of(s@),
        r matches Some(rest) ==> rest@ == s@.skip(prefix@.len() as int),
{
    if str_starts_with(s, prefix) {
        let n = s.unicode_len();
        let m = prefix.unicode_len();
        let rest = s.substring_char(m, n);
        assert(rest@ =~= s@.skip(prefix@.len() as int));
        Some(rest)
    } else {
        None
    }
}

/// `prefix` followed by `s`, as a new string.
pub fn prepend(prefix: &str, s: &str) -> (r: String)
    ensures
        r@ == prefix@ + s@,
{
    let mut r = prefix.to_string();
    r.append(s);
    r
}

} // verus!
