//! Greedy longest-prefix splitting of a word into the tokens of a vocabulary.
use crate::vocab::{pairs_view, Vocab};
use vstd::prelude::*;

verus! {

/// The length of the longest non-empty prefix of `s`, of at most `k`
/// characters, that `vocab` holds; 0 when there is none.
pub open spec fn longest_known_prefix(vocab: Map<Seq<char>, u32>, s: Seq<char>, k: nat) -> nat
    decreases k,
{
    if k == 0 {
        0
    } else if vocab.contains_key(s.take(k as int)) {
        k
    } else {
        longest_known_prefix(vocab, s, (k - 1) as nat)
    }
}

/// The split of `s` into vocabulary tokens that takes, from the start of what
/// is left, the longest prefix that `vocab` holds, and stops at the first
/// position where no non-empty prefix of the rest is held.
pub open spec fn greedy_split_spec(vocab: Map<Seq<char>, u32>, s: Seq<char>) -> Seq<
    (Seq<char>, u32),
>
    decreases s.len(),
{
    let k = longest_known_prefix(vocab, s, s.len());
    if 0 < k <= s.len() {
        seq![(s.take(k as int), vocab[s.take(k as int)])] + greedy_split_spec(
            vocab,
            s.skip(k as int),
        )
    } else {
        Seq::empty()
    }
}

/// The text of a sequence of tokens, joined in order.
pub open spec fn joined(pieces: Seq<(Seq<char>, u32)>) -> Seq<char>
    decreases pieces.len(),
{
    if pieces.len() == 0 {
        Seq::empty()
    } else {
        pieces[0].0 + joined(pieces.drop_first())
    }
}

/// `longest_known_prefix` is the longest: it is at most `k`, the vocabulary
/// holds the prefix of that length when it is not 0, and it holds no longer
/// prefix of at most `k` characters.
pub proof fn lemma_longest_known_prefix(vocab: Map<Seq<char>, u32>, s: Seq<char>, k: nat)
    ensures
        longest_known_prefix(vocab, s, k) <= k,
        longest_known_prefix(vocab, s, k) > 0 ==> vocab.contains_key(
            s.take(longest_known_prefix(vocab, s, k) as int),
        ),
        forall|j: nat|
            longest_known_prefix(vocab, s, k) < j <= k ==> !vocab.contains_key(
                #[trigger] s.take(j as int),
            ),
    decreases k,
{
    if k > 0 && !vocab.contains_key(s.take(k as int)) {
        lemma_longest_known_prefix(vocab, s, (k - 1) as nat);
    }
}

/// What the greedy split gives: each piece is a non-empty token that the
/// vocabulary holds, with the vocabulary's id; the pieces joined are a prefix
/// of the word; and where they stop short of the whole word, the vocabulary
/// holds no non-empty prefix of the rest.
pub proof fn lemma_greedy_split(vocab: Map<Seq<char>, u32>, s: Seq<char>)
    ensures
        forall|i: int|
            0 <= i < greedy_split_spec(vocab, s).len() ==> {
                let piece = #[trigger] greedy_split_spec(vocab, s)[i];
                &&& piece.0.len() > 0
                &&& vocab.contains_key(piece.0)
                &&& vocab[piece.0] == piece.1
            },
        joined(greedy_split_spec(vocab, s)).is_prefix_of(s),
        forall|j: int|
            0 < j <= s.len() - joined(greedy_split_spec(vocab, s)).len() ==> !vocab.contains_key(
                #[trigger] s.skip(joined(greedy_split_spec(vocab, s)).len() as int).take(j),
            ),
    decreases s.len(),
{
    let k = longest_known_prefix(vocab, s, s.len());
    lemma_longest_known_prefix(vocab, s, s.len());
    let res = greedy_split_spec(vocab, s);
    if 0 < k <= s.len() {
        let head = s.take(k as int);
        let tail = s.skip(k as int);
        let rest = greedy_split_spec(vocab, tail);
        lemma_greedy_split(vocab, tail);
        assert(res == seq![(head, vocab[head])] + rest);
        assert(res.drop_first() =~= rest);
        assert(joined(res) == head + joined(rest));
        let jr = joined(rest);
        assert(jr =~= tail.subrange(0, jr.len() as int));
        assert(joined(res) =~= s.subrange(0, joined(res).len() as int));
        assert forall|i: int| 0 <= i < res.len() implies {
            let piece = #[trigger] res[i];
            &&& piece.0.len() > 0
            &&& vocab.contains_key(piece.0)
            &&& vocab[piece.0] == piece.1
        } by {
            if i > 0 {
                assert(res[i] == rest[i - 1]);
            }
        }
        assert forall|j: int| 0 < j <= s.len() - joined(res).len() implies !vocab.contains_key(
            #[trigger] s.skip(joined(res).len() as int).take(j),
        ) by {
            assert(s.skip(joined(res).len() as int) =~= tail.skip(jr.len() as int));
        }
    } else {
        assert(res =~= Seq::<(Seq<char>, u32)>::empty());
        assert(joined(res) =~= Seq::<char>::empty());
        assert forall|j: int| 0 < j <= s.len() - joined(res).len() implies !vocab.contains_key(
            #[trigger] s.skip(joined(res).len() as int).take(j),
        ) by {
            assert(s.skip(0) =~= s);
            assert(longest_known_prefix(vocab, s, s.len()) < j as nat);
        }
    }
}

/// The text of a token followed by more tokens is that token's text followed
/// by theirs.
pub proof fn lemma_joined_cons(head: (Seq<char>, u32), rest: Seq<(Seq<char>, u32)>)
    ensures
        joined(seq![head] + rest) == head.0 + joined(rest),
{
    let all = seq![head] + rest;
    assert(all[0] == head);
    assert(all.drop_first() =~= rest);
}

/// Piece `i` of `pieces` is the longest prefix, of the text of `s` left
/// after the pieces before it, that `vocab` holds: with `r` that text, the
/// pieces before it spell a prefix of `s`, the piece is a non-empty prefix of
/// `r`, the vocabulary holds it with the piece's id, and it holds no longer
/// prefix of `r`.
pub open spec fn is_longest_known_piece(
    vocab: Map<Seq<char>, u32>,
    s: Seq<char>,
    pieces: Seq<(Seq<char>, u32)>,
    i: int,
) -> bool {
    let r = s.skip(joined(pieces.take(i)).len() as int);
    let piece = pieces[i].0;
    &&& joined(pieces.take(i)).is_prefix_of(s)
    &&& 0 < piece.len() <= r.len()
    &&& r.take(piece.len() as int) == piece
    &&& vocab.contains_key(piece)
    &&& vocab[piece] == pieces[i].1
    &&& forall|j: int| piece.len() < j <= r.len() ==> !vocab.contains_key(#[trigger] r.take(j))
}

/// Each piece of the greedy split is the longest prefix, of the text left
/// before it, that the vocabulary holds.
pub proof fn law_greedy_split_takes_longest(vocab: Map<Seq<char>, u32>, s: Seq<char>)
    ensures
        forall|i: int|
            0 <= i < greedy_split_spec(vocab, s).len() ==> #[trigger] is_longest_known_piece(
                vocab,
                s,
                greedy_split_spec(vocab, s),
                i,
            ),
    decreases s.len(),
{
    let res = greedy_split_spec(vocab, s);
    let k = longest_known_prefix(vocab, s, s.len());
    lemma_longest_known_prefix(vocab, s, s.len());
    if 0 < k <= s.len() {
        let head = s.take(k as int);
        let tail = s.skip(k as int);
        let rest = greedy_split_spec(vocab, tail);
        law_greedy_split_takes_longest(vocab, tail);
        assert(res == seq![(head, vocab[head])] + rest);
        assert forall|i: int| 0 <= i < res.len() implies #[trigger] is_longest_known_piece(
            vocab,
            s,
            res,
            i,
        ) by {
            if i == 0 {
                assert(res.take(0) =~= Seq::<(Seq<char>, u32)>::empty());
                assert(joined(res.take(0)) =~= Seq::<char>::empty());
                let r = s.skip(0);
                assert(r =~= s);
                assert(res[0] == (head, vocab[head]));
                assert(r.take(k as int) =~= head);
                assert forall|j: int| k < j <= r.len() implies !vocab.contains_key(
                    #[trigger] r.take(j),
                ) by {
                    assert(r.take(j) =~= s.take(j));
                    assert(!vocab.contains_key(s.take(j as nat as int)));
                }
            } else {
                assert(is_longest_known_piece(vocab, tail, rest, i - 1));
                let before = rest.take(i - 1);
                assert(res.take(i) =~= seq![(head, vocab[head])] + before);
                lemma_joined_cons((head, vocab[head]), before);
                let jb = joined(before);
                assert(res[i] == rest[i - 1]);
                assert(rest[i - 1] == greedy_split_spec(vocab, tail)[i - 1]);
                assert(jb.is_prefix_of(tail));
                assert(joined(res.take(i)) == head + jb);
                assert(s.skip((head + jb).len() as int) =~= tail.skip(jb.len() as int));
                assert(head + jb =~= s.subrange(0, (head + jb).len() as int));
            }
        }
    } else {
        assert(res.len() == 0);
    }
}

/// The length of the longest non-empty prefix of `word[start..]` that `vocab`
/// holds, or 0.
fn longest_prefix_in(vocab: &Vocab, word: &str, start: usize, n: usize) -> (k: usize)
    requires
        n == word@.len(),
        start <= n,
    ensures
        k == longest_known_prefix(vocab@, word@.skip(start as int), (n - start) as nat),
{
    let ghost rest = word@.skip(start as int);
    let mut k: usize = n - start;
    while k > 0
        invariant
            n == word@.len(),
            start <= n,
            k <= n - start,
            rest == word@.skip(start as int),
            longest_known_prefix(vocab@, rest, (n - start) as nat) == longest_known_prefix(
                vocab@,
                rest,
                k as nat,
            ),
        decreases k,
    {
        let piece = word.substring_char(start, start + k);
        assert(piece@ =~= rest.take(k as int));
        if vocab.contains_key(piece) {
            return k;
        }
        k = k - 1;
    }
    0
}

/// Splits `word` into tokens of `vocab`, taking each time the longest prefix
/// of what is left that the vocabulary holds, and stopping where none is
/// held.  The pieces found up to that point are returned.
pub fn greedy_split(vocab: &Vocab, word: &str) -> (pieces: Vec<(String, u32)>)
    ensures
        pairs_view(pieces@) == greedy_split_spec(vocab@, word@),
        forall|i: int|
            0 <= i < pieces@.len() ==> #[trigger] is_longest_known_piece(
                vocab@,
                word@,
                pairs_view(pieces@),
                i,
            ),
{
    let pieces = greedy_split_pieces(vocab, word);
    proof {
        law_greedy_split_takes_longest(vocab@, word@);
        assert(pairs_view(pieces@).len() == pieces@.len());
    }
    pieces
}

/// The pieces of the greedy split of `word`, found from the start of the word.
fn greedy_split_pieces(vocab: &Vocab, word: &str) -> (pieces: Vec<(String, u32)>)
    ensures
        pairs_view(pieces@) == greedy_split_spec(vocab@, word@),
{
    let n = word.unicode_len();
    let mut pieces: Vec<(String, u32)> = Vec::new();
    let mut p: usize = 0;
    assert(word@.skip(0) =~= word@);
    while p < n
        invariant
            n == word@.len(),
            p <= n,
            greedy_split_spec(vocab@, word@) == pairs_view(pieces@) + greedy_split_spec(
                vocab@,
                word@.skip(p as int),
            ),
        decreases n - p,
    {
        let ghost rest = word@.skip(p as int);
        let k = longest_prefix_in(vocab, word, p, n);
        proof {
            lemma_longest_known_prefix(vocab@, rest, rest.len());
        }
        if k == 0 {
            assert(greedy_split_spec(vocab@, rest) =~= Seq::<(Seq<char>, u32)>::empty());
            assert(pairs_view(pieces@) + Seq::<(Seq<char>, u32)>::empty() =~= pairs_view(
                pieces@,
            ));
            return pieces;
        }
        let piece = word.substring_char(p, p + k);
        assert(piece@ =~= rest.take(k as int));
        let id = match vocab.get(piece) {
            Some(id) => id,
            None => {
                assert(false);
                0
            },
        };
        let ghost before = pairs_view(pieces@);
        pieces.push((piece.to_string(), id));
        proof {
            assert(pairs_view(pieces@) =~= before.push((rest.take(k as int), id)));
            assert(rest.skip(k as int) =~= word@.skip(p + k));
            assert(greedy_split_spec(vocab@, rest) == seq![(rest.take(k as int), id)]
                + greedy_split_spec(vocab@, word@.skip(p + k)));
            assert(before + greedy_split_spec(vocab@, rest) =~= before.push(
                (rest.take(k as int), id),
            ) + greedy_split_spec(vocab@, word@.skip(p + k)));
        }
        p = p + k;
    }
    assert(word@.skip(n as int) =~= Seq::<char>::empty());
    assert(greedy_split_spec(vocab@, word@.skip(n as int)) =~= Seq::<(Seq<char>, u32)>::empty());
    assert(pairs_view(pieces@) + Seq::<(Seq<char>, u32)>::empty() =~= pairs_view(pieces@));
    pieces
}

} // verus!
