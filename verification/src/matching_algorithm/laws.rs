//! What holds of the alignment as a whole.
use crate::aligner::aligner_define::TokenizationAlgorithm;
use crate::matching_algorithm::segmentation::{joined, lemma_greedy_split};
use crate::matching_algorithm::teacher_flow::{
    aligned_spec, alignment_map, candidate_spec, middle_of_word_student_defined, middle_of_word_student_spec,
    rows_spec, start_of_word_student_defined, start_of_word_student_spec,
    start_of_word_teacher_spec,
};
use crate::vocab::{
    entries_map, keys_distinct, lemma_entries_map_contains, lemma_entries_map_value, Vocab,
};
use vstd::prelude::*;

verus! {

/// Whether a scheme marks word starts or continuations (every scheme but the
/// word-level one).
pub open spec fn is_subword(alg: TokenizationAlgorithm) -> bool {
    alg != TokenizationAlgorithm::WordLevel
}

/// Rewriting a word-initial token from one sub-word scheme into another and
/// back gives the token back, and both rewritings are defined.
pub proof fn law_start_of_word_round_trip(
    teacher: TokenizationAlgorithm,
    student: TokenizationAlgorithm,
    t: Seq<char>,
)
    requires
        is_subword(teacher),
        is_subword(student),
        start_of_word_teacher_spec(teacher, t),
    ensures
        start_of_word_student_defined(teacher, student, t),
        start_of_word_student_defined(
            student,
            teacher,
            start_of_word_student_spec(teacher, student, t),
        ),
        start_of_word_student_spec(
            student,
            teacher,
            start_of_word_student_spec(teacher, student, t),
        ) == t,
{
    let bpe = crate::text::bpe_word_start();
    let uni = crate::text::unigram_word_start();
    let rest_bpe = t.skip(bpe.len() as int);
    let rest_uni = t.skip(uni.len() as int);
    assert((bpe + t).skip(bpe.len() as int) =~= t);
    assert((uni + t).skip(uni.len() as int) =~= t);
    assert((bpe + rest_uni).skip(bpe.len() as int) =~= rest_uni);
    assert((uni + rest_bpe).skip(uni.len() as int) =~= rest_bpe);
    assert(bpe.is_prefix_of(bpe + t));
    assert(uni.is_prefix_of(uni + t));
    assert(bpe.is_prefix_of(bpe + rest_uni));
    assert(uni.is_prefix_of(uni + rest_bpe));
    if bpe.is_prefix_of(t) {
        assert(bpe + rest_bpe =~= t);
    }
    if uni.is_prefix_of(t) {
        assert(uni + rest_uni =~= t);
    }
}

/// Rewriting a word-continuing token from one sub-word scheme into another
/// and back gives the token back, and both rewritings are defined.
pub proof fn law_middle_of_word_round_trip(
    teacher: TokenizationAlgorithm,
    student: TokenizationAlgorithm,
    t: Seq<char>,
)
    requires
        is_subword(teacher),
        is_subword(student),
        !start_of_word_teacher_spec(teacher, t),
    ensures
        middle_of_word_student_defined(teacher, student, t),
        middle_of_word_student_defined(
            student,
            teacher,
            middle_of_word_student_spec(teacher, student, t),
        ),
        middle_of_word_student_spec(
            student,
            teacher,
            middle_of_word_student_spec(teacher, student, t),
        ) == t,
{
    let wp = crate::text::wordpiece_continuation();
    assert((wp + t).skip(wp.len() as int) =~= t);
    assert(wp.is_prefix_of(wp + t));
    if wp.is_prefix_of(t) {
        assert(wp + t.skip(wp.len() as int) =~= t);
    }
}

/// A sub-word vocabulary aligned with itself maps each of its tokens to
/// itself alone.
pub proof fn law_self_alignment(alg: TokenizationAlgorithm, vocab: Map<Seq<char>, u32>, t: Seq<char>)
    requires
        is_subword(alg),
        vocab.contains_key(t),
    ensures
        aligned_spec(alg, alg, vocab, t) == seq![(t, vocab[t])],
{
}

/// Every student token that a teacher token is aligned with is a token of
/// the student vocabulary, with the student's id; together they spell a
/// prefix of the rewritten teacher token, and all of it when the student
/// vocabulary holds the rewritten token.
pub proof fn law_aligned_tokens_are_student_tokens(
    teacher: TokenizationAlgorithm,
    student: TokenizationAlgorithm,
    student_vocab: Map<Seq<char>, u32>,
    t: Seq<char>,
)
    ensures
        forall|i: int|
            0 <= i < aligned_spec(teacher, student, student_vocab, t).len() ==> {
                let piece = #[trigger] aligned_spec(teacher, student, student_vocab, t)[i];
                &&& student_vocab.contains_key(piece.0)
                &&& student_vocab[piece.0] == piece.1
            },
        joined(aligned_spec(teacher, student, student_vocab, t)).is_prefix_of(
            candidate_spec(teacher, student, t),
        ),
        student_vocab.contains_key(candidate_spec(teacher, student, t)) ==> joined(
            aligned_spec(teacher, student, student_vocab, t),
        ) == candidate_spec(teacher, student, t),
{
    let c = candidate_spec(teacher, student, t);
    lemma_greedy_split(student_vocab, c);
    if student_vocab.contains_key(c) {
        let a = aligned_spec(teacher, student, student_vocab, t);
        assert(a.drop_first() =~= Seq::<(Seq<char>, u32)>::empty());
        assert(joined(a.drop_first()) =~= Seq::<char>::empty());
        assert(joined(a) =~= c);
    }
}

/// The rows made for a well-formed teacher vocabulary hold no key twice, and
/// read as a map they are the alignment of the vocabulary's map: the result
/// does not depend on the order in which the teacher vocabulary is walked.
pub proof fn law_rows_are_alignment_map(
    teacher: TokenizationAlgorithm,
    student: TokenizationAlgorithm,
    student_vocab: Map<Seq<char>, u32>,
    teacher_vocab: &Vocab,
)
    requires
        teacher_vocab.wf(),
    ensures
        keys_distinct(rows_spec(teacher, student, student_vocab, teacher_vocab.entries())),
        entries_map(rows_spec(teacher, student, student_vocab, teacher_vocab.entries()))
            == alignment_map(teacher, student, student_vocab, teacher_vocab@),
{
    let entries = teacher_vocab.entries();
    let rows = rows_spec(teacher, student, student_vocab, entries);
    teacher_vocab.lemma_wf_entries();
    assert(keys_distinct(rows)) by {
        assert forall|a: int, b: int|
            0 <= a < rows.len() && 0 <= b < rows.len() && a != b implies #[trigger] rows[a].0
            != #[trigger] rows[b].0 by {
            assert(rows[a].0 == entries[a] && rows[b].0 == entries[b]);
            assert(entries[a].0 != entries[b].0);
        }
    }
    let lhs = entries_map(rows);
    let rhs = alignment_map(teacher, student, student_vocab, teacher_vocab@);
    assert forall|k: (Seq<char>, u32)| #[trigger] lhs.contains_key(k) <==> rhs.contains_key(k) by {
        lemma_entries_map_contains(rows, k);
        if lhs.contains_key(k) {
            let i = choose|i: int| 0 <= i < rows.len() && #[trigger] rows[i].0 == k;
            assert(rows[i].0 == entries[i]);
            assert(teacher_vocab@.contains_key(entries[i].0));
        }
        if rhs.contains_key(k) {
            assert(teacher_vocab@.contains_key(k.0));
            let i = choose|i: int| 0 <= i < entries.len() && #[trigger] entries[i].0 == k.0;
            assert(rows[i].0 == entries[i]);
            assert(entries[i] == k);
        }
    }
    assert forall|k: (Seq<char>, u32)| #[trigger] lhs.contains_key(k) implies lhs[k] == rhs[k] by {
        lemma_entries_map_contains(rows, k);
        let i = choose|i: int| 0 <= i < rows.len() && #[trigger] rows[i].0 == k;
        lemma_entries_map_value(rows, i);
        assert(rows[i].0 == entries[i]);
    }
    assert(lhs =~= rhs);
}

/// The marks are the characters the schemes use: a BPE word start is
/// U+0120, a Unigram word start is U+2581, and a WordPiece continuation is
/// two `#` characters.
pub proof fn law_marks()
    ensures
        crate::text::bpe_word_start() == seq!['\u{120}'],
        crate::text::unigram_word_start() == seq!['\u{2581}'],
        crate::text::wordpiece_continuation() == seq!['#', '#'],
{
    reveal_strlit("\u{120}");
    reveal_strlit("\u{2581}");
    reveal_strlit("##");
    assert(crate::text::bpe_word_start() =~= seq!['\u{120}']);
    assert(crate::text::unigram_word_start() =~= seq!['\u{2581}']);
    assert(crate::text::wordpiece_continuation() =~= seq!['#', '#']);
}

/// Which teacher tokens begin a word, by their characters: in BPE those whose
/// first character is U+0120, in Unigram those whose first character is
/// U+2581 (the bare mark included), in WordPiece those that do not begin with
/// `##`, and in a word-level vocabulary none.
pub proof fn law_word_start_by_characters(t: Seq<char>)
    ensures
        start_of_word_teacher_spec(TokenizationAlgorithm::BPE, t) <==> (t.len() >= 1 && t[0]
            == '\u{120}'),
        start_of_word_teacher_spec(TokenizationAlgorithm::Unigram, t) <==> (t.len() >= 1 && t[0]
            == '\u{2581}'),
        start_of_word_teacher_spec(TokenizationAlgorithm::WordPiece, t) <==> !(t.len() >= 2 && t[0]
            == '#' && t[1] == '#'),
        !start_of_word_teacher_spec(TokenizationAlgorithm::WordLevel, t),
{
    law_marks();
    if t.len() >= 1 && t[0] == '\u{120}' {
        assert(seq!['\u{120}'] =~= t.subrange(0, 1));
    }
    if t.len() >= 1 && t[0] == '\u{2581}' {
        assert(seq!['\u{2581}'] =~= t.subrange(0, 1));
    }
    if t.len() >= 2 && t[0] == '#' && t[1] == '#' {
        assert(seq!['#', '#'] =~= t.subrange(0, 2));
    }
    if seq!['\u{120}'].is_prefix_of(t) {
        assert(t.subrange(0, 1)[0] == '\u{120}');
    }
    if seq!['\u{2581}'].is_prefix_of(t) {
        assert(t.subrange(0, 1)[0] == '\u{2581}');
    }
    if seq!['#', '#'].is_prefix_of(t) {
        assert(t.subrange(0, 2)[0] == '#' && t.subrange(0, 2)[1] == '#');
    }
}

/// A word as a word-initial token of a scheme: BPE and Unigram put their mark
/// in front of it, WordPiece and word-level vocabularies leave it bare.
pub open spec fn word_start_form(alg: TokenizationAlgorithm, word: Seq<char>) -> Seq<char> {
    match alg {
        TokenizationAlgorithm::BPE => seq!['\u{120}'] + word,
        TokenizationAlgorithm::Unigram => seq!['\u{2581}'] + word,
        _ => word,
    }
}

/// A piece of a word as a word-continuing token of a scheme: WordPiece puts
/// `##` in front of it, the other schemes leave it bare.
pub open spec fn continuation_form(alg: TokenizationAlgorithm, piece: Seq<char>) -> Seq<char> {
    match alg {
        TokenizationAlgorithm::WordPiece => seq!['#', '#'] + piece,
        _ => piece,
    }
}

/// Rewriting a word-initial token between sub-word schemes changes only the
/// mark: the teacher's form of a word becomes the student's form of the same
/// word, and the rewriting is defined on it.
pub proof fn law_start_rewriting_keeps_the_word(
    teacher: TokenizationAlgorithm,
    student: TokenizationAlgorithm,
    word: Seq<char>,
)
    requires
        is_subword(teacher),
        is_subword(student),
    ensures
        start_of_word_student_defined(teacher, student, word_start_form(teacher, word)),
        start_of_word_student_spec(teacher, student, word_start_form(teacher, word))
            == word_start_form(student, word),
{
    law_marks();
    let b = seq!['\u{120}'];
    let u = seq!['\u{2581}'];
    assert((b + word).skip(1) =~= word);
    assert((u + word).skip(1) =~= word);
    assert(b.is_prefix_of(b + word));
    assert(u.is_prefix_of(u + word));
}

/// Rewriting a word-continuing token between sub-word schemes changes only
/// the mark: the teacher's form of a piece becomes the student's form of the
/// same piece, and the rewriting is defined on it.
pub proof fn law_middle_rewriting_keeps_the_piece(
    teacher: TokenizationAlgorithm,
    student: TokenizationAlgorithm,
    piece: Seq<char>,
)
    requires
        is_subword(teacher),
        is_subword(student),
    ensures
        middle_of_word_student_defined(teacher, student, continuation_form(teacher, piece)),
        middle_of_word_student_spec(teacher, student, continuation_form(teacher, piece))
            == continuation_form(student, piece),
{
    law_marks();
    let h = seq!['#', '#'];
    assert((h + piece).skip(2) =~= piece);
    assert(h.is_prefix_of(h + piece));
}

/// The student token that a teacher token is matched against is the same
/// word or piece in the student's form: a word-initial teacher token gives the
/// student's word-initial form, a word-continuing one the student's
/// continuation form; with a word-level vocabulary on either side it is the
/// fixed text `WordLevelCase`.
pub proof fn law_candidate_is_the_same_text(
    teacher: TokenizationAlgorithm,
    student: TokenizationAlgorithm,
    text: Seq<char>,
)
    ensures
        is_subword(teacher) && is_subword(student) && start_of_word_teacher_spec(
            teacher,
            word_start_form(teacher, text),
        ) ==> candidate_spec(teacher, student, word_start_form(teacher, text)) == word_start_form(
            student,
            text,
        ),
        is_subword(teacher) && is_subword(student) && !start_of_word_teacher_spec(
            teacher,
            continuation_form(teacher, text),
        ) ==> candidate_spec(teacher, student, continuation_form(teacher, text))
            == continuation_form(student, text),
        !is_subword(teacher) || !is_subword(student) ==> candidate_spec(teacher, student, text)
            == "WordLevelCase"@,
{
    if is_subword(teacher) && is_subword(student) {
        law_start_rewriting_keeps_the_word(teacher, student, text);
        law_middle_rewriting_keeps_the_piece(teacher, student, text);
    }
}

} // verus!
