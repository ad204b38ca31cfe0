//! Maps every token of a teacher vocabulary to tokens of a student
//! vocabulary.
//!
//! A teacher token is first rewritten into the student's way of marking word
//! starts and word continuations.  If the student vocabulary holds the
//! rewritten token, that token is the match; otherwise the rewritten token is
//! split greedily into the longest student tokens that spell it.
use crate::aligner::aligner_define::{Aligner, TokenizationAlgorithm};
use crate::matching_algorithm::segmentation::{greedy_split, greedy_split_spec};
use crate::text::{
    bpe_word_start, prepend, str_starts_with, str_strip_prefix, unigram_word_start,
    unmarked_unigram_placeholder, word_level_placeholder, wordpiece_continuation,
};
use crate::matching_algorithm::laws::law_rows_are_alignment_map;
use crate::vocab::{entries_map, keys_distinct, pairs_view};
use vstd::prelude::*;

verus! {

/// Whether a teacher token begins a word in the teacher's scheme: BPE and
/// Unigram mark a word start, WordPiece marks the continuation of a word, and
/// a word-level vocabulary has no marks at all.
pub open spec fn start_of_word_teacher_spec(alg: TokenizationAlgorithm, t: Seq<char>) -> bool {
    match alg {
        TokenizationAlgorithm::BPE => bpe_word_start().is_prefix_of(t),
        TokenizationAlgorithm::WordPiece => !wordpiece_continuation().is_prefix_of(t),
        TokenizationAlgorithm::Unigram => unigram_word_start().is_prefix_of(t),
        TokenizationAlgorithm::WordLevel => false,
    }
}

/// The inputs on which the rewriting of a word-initial token is defined:
/// where a mark is taken off, the token must carry it.
pub open spec fn start_of_word_student_defined(
    teacher: TokenizationAlgorithm,
    student: TokenizationAlgorithm,
    t: Seq<char>,
) -> bool {
    match (teacher, student) {
        (TokenizationAlgorithm::BPE, TokenizationAlgorithm::WordPiece) => bpe_word_start().is_prefix_of(t),
        (TokenizationAlgorithm::BPE, TokenizationAlgorithm::Unigram) => bpe_word_start().is_prefix_of(t),
        (TokenizationAlgorithm::Unigram, TokenizationAlgorithm::WordPiece) => unigram_word_start().is_prefix_of(t),
        _ => true,
    }
}

/// A word-initial teacher token rewritten into the student's scheme.
pub open spec fn start_of_word_student_spec(
    teacher: TokenizationAlgorithm,
    student: TokenizationAlgorithm,
    t: Seq<char>,
) -> Seq<char> {
    let bpe = bpe_word_start();
    let uni = unigram_word_start();
    match (teacher, student) {
        (TokenizationAlgorithm::BPE, TokenizationAlgorithm::BPE) => t,
        (TokenizationAlgorithm::BPE, TokenizationAlgorithm::WordPiece) => t.skip(bpe.len() as int),
        (TokenizationAlgorithm::BPE, TokenizationAlgorithm::Unigram) => uni + t.skip(bpe.len() as int),
        (TokenizationAlgorithm::WordPiece, TokenizationAlgorithm::BPE) => bpe + t,
        (TokenizationAlgorithm::WordPiece, TokenizationAlgorithm::WordPiece) => t,
        (TokenizationAlgorithm::WordPiece, TokenizationAlgorithm::Unigram) => uni + t,
        (TokenizationAlgorithm::Unigram, TokenizationAlgorithm::BPE) => if uni.is_prefix_of(t) {
            bpe + t.skip(uni.len() as int)
        } else {
            unmarked_unigram_placeholder()
        },
        (TokenizationAlgorithm::Unigram, TokenizationAlgorithm::WordPiece) => t.skip(uni.len() as int),
        (TokenizationAlgorithm::Unigram, TokenizationAlgorithm::Unigram) => t,
        _ => word_level_placeholder(),
    }
}

/// The inputs on which the rewriting of a word-continuing token is defined:
/// where the WordPiece mark is taken off, the token must carry it.
pub open spec fn middle_of_word_student_defined(
    teacher: TokenizationAlgorithm,
    student: TokenizationAlgorithm,
    t: Seq<char>,
) -> bool {
    match (teacher, student) {
        (TokenizationAlgorithm::WordPiece, TokenizationAlgorithm::BPE) => wordpiece_continuation().is_prefix_of(t),
        (TokenizationAlgorithm::WordPiece, TokenizationAlgorithm::Unigram) => wordpiece_continuation().is_prefix_of(t),
        _ => true,
    }
}

/// A word-continuing teacher token rewritten into the student's scheme.
pub open spec fn middle_of_word_student_spec(
    teacher: TokenizationAlgorithm,
    student: TokenizationAlgorithm,
    t: Seq<char>,
) -> Seq<char> {
    let wp = wordpiece_continuation();
    match (teacher, student) {
        (TokenizationAlgorithm::BPE, TokenizationAlgorithm::BPE) => t,
        (TokenizationAlgorithm::BPE, TokenizationAlgorithm::WordPiece) => wp + t,
        (TokenizationAlgorithm::BPE, TokenizationAlgorithm::Unigram) => t,
        (TokenizationAlgorithm::WordPiece, TokenizationAlgorithm::BPE) => t.skip(wp.len() as int),
        (TokenizationAlgorithm::WordPiece, TokenizationAlgorithm::WordPiece) => t,
        (TokenizationAlgorithm::WordPiece, TokenizationAlgorithm::Unigram) => t.skip(wp.len() as int),
        (TokenizationAlgorithm::Unigram, TokenizationAlgorithm::BPE) => t,
        (TokenizationAlgorithm::Unigram, TokenizationAlgorithm::WordPiece) => wp + t,
        (TokenizationAlgorithm::Unigram, TokenizationAlgorithm::Unigram) => t,
        _ => word_level_placeholder(),
    }
}

/// The student token that a teacher token is expected to correspond to.
pub open spec fn candidate_spec(
    teacher: TokenizationAlgorithm,
    student: TokenizationAlgorithm,
    t: Seq<char>,
) -> Seq<char> {
    if start_of_word_teacher_spec(teacher, t) {
        start_of_word_student_spec(teacher, student, t)
    } else {
        middle_of_word_student_spec(teacher, student, t)
    }
}

/// The student tokens that a teacher token is aligned with: the candidate
/// alone when the student vocabulary holds it, else its greedy split.
pub open spec fn aligned_spec(
    teacher: TokenizationAlgorithm,
    student: TokenizationAlgorithm,
    student_vocab: Map<Seq<char>, u32>,
    t: Seq<char>,
) -> Seq<(Seq<char>, u32)> {
    let c = candidate_spec(teacher, student, t);
    if student_vocab.contains_key(c) {
        seq![(c, student_vocab[c])]
    } else {
        greedy_split_spec(student_vocab, c)
    }
}

/// The rows of the output for a sequence of teacher entries: each entry with
/// the student tokens it is aligned with, in the order of the entries.
pub open spec fn rows_spec(
    teacher: TokenizationAlgorithm,
    student: TokenizationAlgorithm,
    student_vocab: Map<Seq<char>, u32>,
    entries: Seq<(Seq<char>, u32)>,
) -> Seq<((Seq<char>, u32), Seq<(Seq<char>, u32)>)> {
    entries.map_values(
        |e: (Seq<char>, u32)| (e, aligned_spec(teacher, student, student_vocab, e.0)),
    )
}

/// What the alignment of a teacher vocabulary is as a map: each teacher token
/// with its id, to the student tokens it is aligned with.
pub open spec fn alignment_map(
    teacher: TokenizationAlgorithm,
    student: TokenizationAlgorithm,
    student_vocab: Map<Seq<char>, u32>,
    teacher_vocab: Map<Seq<char>, u32>,
) -> Map<(Seq<char>, u32), Seq<(Seq<char>, u32)>> {
    Map::new(
        |k: (Seq<char>, u32)| teacher_vocab.contains_key(k.0) && teacher_vocab[k.0] == k.1,
        |k: (Seq<char>, u32)| aligned_spec(teacher, student, student_vocab, k.0),
    )
}

/// The word-initial teacher tokens among `entries`, in order.
pub open spec fn start_tokens_spec(teacher: TokenizationAlgorithm, entries: Seq<(Seq<char>, u32)>) -> Seq<Seq<char>>
    decreases entries.len(),
{
    if entries.len() == 0 {
        Seq::empty()
    } else {
        let prev = start_tokens_spec(teacher, entries.drop_last());
        let t = entries.last().0;
        if start_of_word_teacher_spec(teacher, t) {
            prev.push(t)
        } else {
            prev
        }
    }
}

/// For the word-initial teacher tokens whose candidate the student vocabulary
/// holds: the teacher token, the candidate and its student id, in order.
pub open spec fn start_matches_spec(
    teacher: TokenizationAlgorithm,
    student: TokenizationAlgorithm,
    student_vocab: Map<Seq<char>, u32>,
    entries: Seq<(Seq<char>, u32)>,
) -> Seq<(Seq<char>, Seq<char>, u32)>
    decreases entries.len(),
{
    if entries.len() == 0 {
        Seq::empty()
    } else {
        let prev = start_matches_spec(teacher, student, student_vocab, entries.drop_last());
        let t = entries.last().0;
        let c = start_of_word_student_spec(teacher, student, t);
        if start_of_word_teacher_spec(teacher, t) && student_vocab.contains_key(c) {
            prev.push((t, c, student_vocab[c]))
        } else {
            prev
        }
    }
}

/// For the word-initial teacher tokens whose candidate the student vocabulary
/// does not hold: the teacher token, the candidate and its greedy split, in
/// order.
pub open spec fn start_splits_spec(
    teacher: TokenizationAlgorithm,
    student: TokenizationAlgorithm,
    student_vocab: Map<Seq<char>, u32>,
    entries: Seq<(Seq<char>, u32)>,
) -> Seq<(Seq<char>, Seq<char>, Seq<(Seq<char>, u32)>)>
    decreases entries.len(),
{
    if entries.len() == 0 {
        Seq::empty()
    } else {
        let prev = start_splits_spec(teacher, student, student_vocab, entries.drop_last());
        let t = entries.last().0;
        let c = start_of_word_student_spec(teacher, student, t);
        if start_of_word_teacher_spec(teacher, t) && !student_vocab.contains_key(c) {
            prev.push((t, c, greedy_split_spec(student_vocab, c)))
        } else {
            prev
        }
    }
}

/// Whether `teacher_token_str` begins a word in the teacher's scheme.
pub fn predicats_start_of_word_teacher(
    tok_algo_teacher: &TokenizationAlgorithm,
    teacher_token_str: &String,
) -> (b: bool)
    ensures
        b == start_of_word_teacher_spec(*tok_algo_teacher, teacher_token_str@),
{
    match tok_algo_teacher {
        TokenizationAlgorithm::BPE => str_starts_with(teacher_token_str.as_str(), "\u{120}"),
        TokenizationAlgorithm::WordPiece => !str_starts_with(teacher_token_str.as_str(), "##"),
        TokenizationAlgorithm::Unigram => str_starts_with(teacher_token_str.as_str(), "\u{2581}"),
        TokenizationAlgorithm::WordLevel => false,
    }
}

/// `s` without its leading `prefix`, which it is known to carry.
fn strip_known_prefix(s: &str, prefix: &str) -> (r: String)
    requires
        prefix@.is_prefix_of(s@),
    ensures
        r@ == s@.skip(prefix@.len() as int),
{
    match str_strip_prefix(s, prefix) {
        Some(rest) => rest.to_string(),
        None => {
            assert(false);
            String::new()
        },
    }
}

/// A word-initial teacher token rewritten into the student's scheme: the
/// teacher's word-start mark is replaced by the student's.
pub fn predicats_start_of_word_student(
    tok_algo_teacher: &TokenizationAlgorithm,
    tok_algo_student: &TokenizationAlgorithm,
    teacher_token_str: &String,
) -> (r: String)
    requires
        start_of_word_student_defined(*tok_algo_teacher, *tok_algo_student, teacher_token_str@),
    ensures
        r@ == start_of_word_student_spec(*tok_algo_teacher, *tok_algo_student, teacher_token_str@),
{
    let t = teacher_token_str.as_str();
    match tok_algo_teacher {
        TokenizationAlgorithm::BPE => match tok_algo_student {
            TokenizationAlgorithm::BPE => t.to_string(),
            TokenizationAlgorithm::WordPiece => strip_known_prefix(t, "\u{120}"),
            TokenizationAlgorithm::Unigram => {
                let rest = strip_known_prefix(t, "\u{120}");
                prepend("\u{2581}", rest.as_str())
            },
            TokenizationAlgorithm::WordLevel => "WordLevelCase".to_string(),
        },
        TokenizationAlgorithm::WordPiece => match tok_algo_student {
            TokenizationAlgorithm::BPE => prepend("\u{120}", t),
            TokenizationAlgorithm::WordPiece => t.to_string(),
            TokenizationAlgorithm::Unigram => prepend("\u{2581}", t),
            TokenizationAlgorithm::WordLevel => "WordLevelCase".to_string(),
        },
        TokenizationAlgorithm::Unigram => match tok_algo_student {
            TokenizationAlgorithm::BPE => match str_strip_prefix(t, "\u{2581}") {
                Some(rest) => prepend("\u{120}", rest),
                None => "Aint do shit".to_string(),
            },
            TokenizationAlgorithm::WordPiece => strip_known_prefix(t, "\u{2581}"),
            TokenizationAlgorithm::Unigram => t.to_string(),
            TokenizationAlgorithm::WordLevel => "WordLevelCase".to_string(),
        },
        TokenizationAlgorithm::WordLevel => "WordLevelCase".to_string(),
    }
}

/// A word-continuing teacher token rewritten into the student's scheme: the
/// WordPiece continuation mark is added or taken off.
pub fn predicats_middle_of_word_student(
    tok_algo_teacher: &TokenizationAlgorithm,
    tok_algo_student: &TokenizationAlgorithm,
    teacher_token_str: &String,
) -> (r: String)
    requires
        middle_of_word_student_defined(*tok_algo_teacher, *tok_algo_student, teacher_token_str@),
    ensures
        r@ == middle_of_word_student_spec(*tok_algo_teacher, *tok_algo_student, teacher_token_str@),
{
    let t = teacher_token_str.as_str();
    match tok_algo_teacher {
        TokenizationAlgorithm::BPE => match tok_algo_student {
            TokenizationAlgorithm::BPE => t.to_string(),
            TokenizationAlgorithm::WordPiece => prepend("##", t),
            TokenizationAlgorithm::Unigram => t.to_string(),
            TokenizationAlgorithm::WordLevel => "WordLevelCase".to_string(),
        },
        TokenizationAlgorithm::WordPiece => match tok_algo_student {
            TokenizationAlgorithm::BPE => strip_known_prefix(t, "##"),
            TokenizationAlgorithm::WordPiece => t.to_string(),
            TokenizationAlgorithm::Unigram => strip_known_prefix(t, "##"),
            TokenizationAlgorithm::WordLevel => "WordLevelCase".to_string(),
        },
        TokenizationAlgorithm::Unigram => match tok_algo_student {
            TokenizationAlgorithm::BPE => t.to_string(),
            TokenizationAlgorithm::WordPiece => prepend("##", t),
            TokenizationAlgorithm::Unigram => t.to_string(),
            TokenizationAlgorithm::WordLevel => "WordLevelCase".to_string(),
        },
        TokenizationAlgorithm::WordLevel => "WordLevelCase".to_string(),
    }
}

/// A copy of a vector of `(token, id)` pairs.
fn clone_pairs(v: &Vec<(String, u32)>) -> (r: Vec<(String, u32)>)
    ensures
        pairs_view(r@) == pairs_view(v@),
{
    let mut r: Vec<(String, u32)> = Vec::new();
    for i in 0..v.len()
        invariant
            r.len() == i,
            pairs_view(r@) == pairs_view(v@).take(i as int),
    {
        let ghost before = r@;
        let s = v[i].0.clone();
        r.push((s, v[i].1));
        assert(r@ == before.push((s, v@[i as int].1)));
        assert(pairs_view(r@)[i as int] == pairs_view(v@)[i as int]);
        assert(pairs_view(r@) =~= pairs_view(v@).take(i + 1));
    }
    assert(pairs_view(v@).take(v.len() as int) =~= pairs_view(v@));
    r
}

/// The token strings of a vector, by their characters.
pub open spec fn strings_view(v: Seq<String>) -> Seq<Seq<char>> {
    v.map_values(|s: String| s@)
}

/// `(teacher token, student token, student id)` triples, by their characters.
pub open spec fn matches_view(v: Seq<(String, String, u32)>) -> Seq<(Seq<char>, Seq<char>, u32)> {
    v.map_values(|m: (String, String, u32)| (m.0@, m.1@, m.2))
}

/// `(teacher token, candidate, split)` triples, by their characters.
pub open spec fn splits_view(v: Seq<(String, String, Vec<(String, u32)>)>) -> Seq<
    (Seq<char>, Seq<char>, Seq<(Seq<char>, u32)>),
> {
    v.map_values(|m: (String, String, Vec<(String, u32)>)| (m.0@, m.1@, pairs_view(m.2@)))
}

/// A record of how the word-initial teacher tokens were aligned.
#[derive(Debug)]
pub struct AlignmentTrace {
    /// Word-initial teacher tokens whose rewritten form is a student token:
    /// the teacher token, that student token and its id.
    pub start_matches: Vec<(String, String, u32)>,
    /// All word-initial teacher tokens.
    pub start_tokens: Vec<String>,
    /// Word-initial teacher tokens whose rewritten form is not a student
    /// token: the teacher token, the rewritten form and its greedy split.
    pub start_splits: Vec<(String, String, Vec<(String, u32)>)>,
}

/// The alignment: every teacher token with its id, and the student tokens
/// with their ids that it corresponds to.  The rows are kept in a vector in
/// the order in which the teacher vocabulary was walked; no key appears twice
/// in them, and read as a map (`view`) they are the alignment of the teacher
/// vocabulary.  (vstd specifies `HashMap` only for keys that obey its key
/// model, which keys holding a `String` do not.)
#[derive(Debug)]
pub struct Matrix {
    pub output: Vec<((String, u32), Vec<(String, u32)>)>,
}

/// The rows of an output, by their characters.
pub open spec fn matrix_rows(output: Seq<((String, u32), Vec<(String, u32)>)>) -> Seq<
    ((Seq<char>, u32), Seq<(Seq<char>, u32)>),
> {
    output.map_values(
        |r: ((String, u32), Vec<(String, u32)>)| ((r.0.0@, r.0.1), pairs_view(r.1@)),
    )
}

impl View for Matrix {
    type V = Map<(Seq<char>, u32), Seq<(Seq<char>, u32)>>;

    /// The alignment as a map from teacher tokens with their ids.
    open spec fn view(&self) -> Map<(Seq<char>, u32), Seq<(Seq<char>, u32)>> {
        entries_map(self.rows())
    }
}

impl Matrix {
    /// The rows of the alignment, in the order in which they were made.
    pub open spec fn rows(&self) -> Seq<((Seq<char>, u32), Seq<(Seq<char>, u32)>)> {
        matrix_rows(self.output@)
    }

    /// Aligns every token of the teacher's vocabulary with tokens of the
    /// student's, walking the teacher's vocabulary in its order, and records
    /// how the word-initial teacher tokens were aligned.
    pub fn generate_output_matrix_traced(
        tokenizer_student: &Aligner,
        tokenizer_teacher: &Aligner,
    ) -> (res: (Matrix, AlignmentTrace))
        ensures
            res.0.rows() == rows_spec(
                tokenizer_teacher.tokenization_algorithm,
                tokenizer_student.tokenization_algorithm,
                tokenizer_student.vocab@,
                tokenizer_teacher.vocab.entries(),
            ),
            strings_view(res.1.start_tokens@) == start_tokens_spec(
                tokenizer_teacher.tokenization_algorithm,
                tokenizer_teacher.vocab.entries(),
            ),
            matches_view(res.1.start_matches@) == start_matches_spec(
                tokenizer_teacher.tokenization_algorithm,
                tokenizer_student.tokenization_algorithm,
                tokenizer_student.vocab@,
                tokenizer_teacher.vocab.entries(),
            ),
            splits_view(res.1.start_splits@) == start_splits_spec(
                tokenizer_teacher.tokenization_algorithm,
                tokenizer_student.tokenization_algorithm,
                tokenizer_student.vocab@,
                tokenizer_teacher.vocab.entries(),
            ),
            keys_distinct(res.0.rows()),
            res.0@ == alignment_map(
                tokenizer_teacher.tokenization_algorithm,
                tokenizer_student.tokenization_algorithm,
                tokenizer_student.vocab@,
                tokenizer_teacher.vocab@,
            ),
    {
        proof {
            use_type_invariant(&tokenizer_teacher.vocab);
            law_rows_are_alignment_map(
                tokenizer_teacher.tokenization_algorithm,
                tokenizer_student.tokenization_algorithm,
                tokenizer_student.vocab@,
                &tokenizer_teacher.vocab,
            );
        }
        let ta = tokenizer_teacher.tokenization_algorithm;
        let sa = tokenizer_student.tokenization_algorithm;
        let student_vocab = &tokenizer_student.vocab;
        let teacher_vocab = &tokenizer_teacher.vocab;
        let ghost sv = student_vocab@;
        let ghost entries = teacher_vocab.entries();
        let mut output: Vec<((String, u32), Vec<(String, u32)>)> = Vec::new();
        let mut start_matches: Vec<(String, String, u32)> = Vec::new();
        let mut start_tokens: Vec<String> = Vec::new();
        let mut start_splits: Vec<(String, String, Vec<(String, u32)>)> = Vec::new();
        let n = teacher_vocab.len();
        for i in 0..n
            invariant
                n == entries.len(),
                entries == teacher_vocab.entries(),
                sv == student_vocab@,
                output.len() == i,
                matrix_rows(output@) == rows_spec(ta, sa, sv, entries.take(i as int)),
                strings_view(start_tokens@) == start_tokens_spec(ta, entries.take(i as int)),
                matches_view(start_matches@) == start_matches_spec(
                    ta,
                    sa,
                    sv,
                    entries.take(i as int),
                ),
                splits_view(start_splits@) == start_splits_spec(ta, sa, sv, entries.take(i as int)),
        {
            let (t, id) = teacher_vocab.entry(i);
            let ghost prefix = entries.take(i as int);
            let ghost next = entries.take(i + 1);
            proof {
                assert(next.drop_last() =~= prefix);
                assert(next.last() == (t@, id));
            }
            let ghost rows_before = matrix_rows(output@);
            let ghost old_output = output@;
            let ghost tokens_before = strings_view(start_tokens@);
            let aligned: Vec<(String, u32)>;
            if predicats_start_of_word_teacher(&ta, t) {
                start_tokens.push(t.clone());
                let candidate = predicats_start_of_word_student(&ta, &sa, t);
                match student_vocab.get(candidate.as_str()) {
                    Some(student_id) => {
                        start_matches.push((t.clone(), candidate.clone(), student_id));
                        aligned = vec![(candidate, student_id)];
                        assert(pairs_view(aligned@) =~= aligned_spec(ta, sa, sv, t@));
                        assert(splits_view(start_splits@) == start_splits_spec(ta, sa, sv, next));
                    },
                    None => {
                        let pieces = greedy_split(student_vocab, candidate.as_str());
                        start_splits.push((t.clone(), candidate.clone(), clone_pairs(&pieces)));
                        aligned = pieces;
                        assert(matches_view(start_matches@) == start_matches_spec(
                            ta,
                            sa,
                            sv,
                            next,
                        ));
                    },
                }
                assert(strings_view(start_tokens@) =~= tokens_before.push(t@));
                assert(matches_view(start_matches@) =~= start_matches_spec(ta, sa, sv, next));
                assert(splits_view(start_splits@) =~= start_splits_spec(ta, sa, sv, next));
            } else {
                let candidate = predicats_middle_of_word_student(&ta, &sa, t);
                match student_vocab.get(candidate.as_str()) {
                    Some(student_id) => {
                        aligned = vec![(candidate, student_id)];
                        assert(pairs_view(aligned@) =~= aligned_spec(ta, sa, sv, t@));
                    },
                    None => {
                        aligned = greedy_split(student_vocab, candidate.as_str());
                    },
                }
            }
            assert(pairs_view(aligned@) == aligned_spec(ta, sa, sv, t@));
            let key = t.clone();
            output.push(((key, id), aligned));
            assert(matrix_rows(output@)[i as int] == rows_spec(ta, sa, sv, next)[i as int]);
            assert forall|j: int| 0 <= j < i implies #[trigger] matrix_rows(output@)[j] == rows_spec(
                ta,
                sa,
                sv,
                next,
            )[j] by {
                assert(output@[j] == old_output[j]);
                assert(rows_before[j] == rows_spec(ta, sa, sv, prefix)[j]);
                assert(prefix[j] == next[j]);
            }
            assert(matrix_rows(output@) =~= rows_spec(ta, sa, sv, next));
        }
        proof {
            assert(entries.take(n as int) =~= entries);
        }
        (
            Matrix { output },
            AlignmentTrace { start_matches, start_tokens, start_splits },
        )
    }

    /// Aligns every token of the teacher's vocabulary with tokens of the
    /// student's, walking the teacher's vocabulary in its order.
    pub fn generate_output_matrix(tokenizer_student: Aligner, tokenizer_teacher: Aligner) -> (m: Self)
        ensures
            m.rows() == rows_spec(
                tokenizer_teacher.tokenization_algorithm,
                tokenizer_student.tokenization_algorithm,
                tokenizer_student.vocab@,
                tokenizer_teacher.vocab.entries(),
            ),
            keys_distinct(m.rows()),
            m@ == alignment_map(
                tokenizer_teacher.tokenization_algorithm,
                tokenizer_student.tokenization_algorithm,
                tokenizer_student.vocab@,
                tokenizer_teacher.vocab@,
            ),
    {
        let (m, _trace) = Matrix::generate_output_matrix_traced(&tokenizer_student, &tokenizer_teacher);
        m
    }
}

} // verus!
