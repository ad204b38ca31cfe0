use tokenizer_aligner::aligner::aligner_define::{Aligner, TokenizationAlgorithm};
use tokenizer_aligner::matching_algorithm::teacher_flow::Matrix;
use tokenizer_aligner::vocab::Vocab;
use tokenizers::models::bpe::BPE;
use tokenizers::models::wordlevel::WordLevel;
use tokenizers::models::wordpiece::WordPiece;
use tokenizers::tokenizer::{AddedToken, Tokenizer};

fn v(entries: &[(&str, u32)]) -> Vocab {
    Vocab::from_entries(entries.iter().map(|(t, i)| (t.to_string(), *i)).collect())
}

fn owned(p: &[(&str, u32)]) -> Vec<(String, u32)> {
    p.iter().map(|(t, i)| (t.to_string(), *i)).collect()
}

fn plain_tokenizer() -> Tokenizer {
    Tokenizer::new(WordLevel::builder().build().unwrap())
}

fn aligner(entries: &[(&str, u32)], alg: TokenizationAlgorithm) -> Aligner {
    Aligner { tokenizer: plain_tokenizer(), vocab: v(entries), tokenization_algorithm: alg }
}

fn row<'a>(m: &'a Matrix, token: &str) -> &'a ((String, u32), Vec<(String, u32)>) {
    m.output.iter().find(|r| r.0 .0 == token).unwrap()
}

#[test]
fn bpe_teacher_wordpiece_student() {
    let teacher = aligner(
        &[("\u{120}hello", 0), ("lo", 1), ("\u{120}unbreakable", 2), ("zz", 3)],
        TokenizationAlgorithm::BPE,
    );
    let student = aligner(
        &[("hello", 10), ("##lo", 11), ("un", 12), ("break", 14), ("able", 15)],
        TokenizationAlgorithm::WordPiece,
    );
    let m = Matrix::generate_output_matrix(student, teacher);
    assert_eq!(m.output.len(), 4);
    assert_eq!(m.output[0], (("\u{120}hello".to_string(), 0), owned(&[("hello", 10)])));
    assert_eq!(m.output[1], (("lo".to_string(), 1), owned(&[("##lo", 11)])));
    assert_eq!(
        m.output[2],
        (("\u{120}unbreakable".to_string(), 2), owned(&[("un", 12), ("break", 14), ("able", 15)]))
    );
    // "##zz" has no student prefix at all: the split is empty.
    assert_eq!(m.output[3], (("zz".to_string(), 3), owned(&[])));
}

#[test]
fn traced_alignment_records_word_initial_tokens() {
    let teacher = aligner(
        &[("\u{120}hello", 0), ("lo", 1), ("\u{120}unbreakable", 2)],
        TokenizationAlgorithm::BPE,
    );
    let student = aligner(
        &[("hello", 10), ("un", 12), ("break", 14)],
        TokenizationAlgorithm::WordPiece,
    );
    let (m, trace) = Matrix::generate_output_matrix_traced(&student, &teacher);
    assert_eq!(m.output.len(), 3);
    assert_eq!(trace.start_tokens, vec!["\u{120}hello".to_string(), "\u{120}unbreakable".to_string()]);
    assert_eq!(trace.start_matches, vec![("\u{120}hello".to_string(), "hello".to_string(), 10)]);
    assert_eq!(
        trace.start_splits,
        vec![(
            "\u{120}unbreakable".to_string(),
            "unbreakable".to_string(),
            owned(&[("un", 12), ("break", 14)])
        )]
    );
}

#[test]
fn wordpiece_teacher_unigram_student() {
    let teacher = aligner(&[("cat", 0), ("##s", 1), ("dogs", 2)], TokenizationAlgorithm::WordPiece);
    let student = aligner(
        &[("\u{2581}cat", 5), ("s", 6), ("\u{2581}dog", 7)],
        TokenizationAlgorithm::Unigram,
    );
    let m = Matrix::generate_output_matrix(student, teacher);
    assert_eq!(row(&m, "cat").1, owned(&[("\u{2581}cat", 5)]));
    assert_eq!(row(&m, "##s").1, owned(&[("s", 6)]));
    assert_eq!(row(&m, "dogs").1, owned(&[("\u{2581}dog", 7), ("s", 6)]));
}

#[test]
fn word_level_teacher_maps_to_placeholder() {
    let teacher = aligner(&[("cat", 0)], TokenizationAlgorithm::WordLevel);
    let student = aligner(&[("WordLevelCase", 42)], TokenizationAlgorithm::BPE);
    let m = Matrix::generate_output_matrix(student, teacher);
    assert_eq!(m.output, vec![(("cat".to_string(), 0), owned(&[("WordLevelCase", 42)]))]);
}

#[test]
fn empty_candidate_held_by_student() {
    // "\u{120}" alone becomes the empty word for a WordPiece student.
    let teacher = aligner(&[("\u{120}", 0)], TokenizationAlgorithm::BPE);
    let student = aligner(&[("", 3)], TokenizationAlgorithm::WordPiece);
    let m = Matrix::generate_output_matrix(student, teacher);
    assert_eq!(m.output, vec![(("\u{120}".to_string(), 0), owned(&[("", 3)]))]);
    let teacher = aligner(&[("\u{120}", 0)], TokenizationAlgorithm::BPE);
    let student = aligner(&[("a", 3)], TokenizationAlgorithm::WordPiece);
    let m = Matrix::generate_output_matrix(student, teacher);
    assert_eq!(m.output, vec![(("\u{120}".to_string(), 0), owned(&[]))]);
}

#[test]
fn self_alignment_maps_each_token_to_itself() {
    let entries = [("\u{120}the", 0), ("re", 1), ("\u{120}a", 2)];
    let m = Matrix::generate_output_matrix(
        aligner(&entries, TokenizationAlgorithm::BPE),
        aligner(&entries, TokenizationAlgorithm::BPE),
    );
    for ((t, i), aligned) in m.output.iter() {
        assert_eq!(aligned, &vec![(t.clone(), *i)]);
    }
}

#[test]
fn aligned_tokens_are_student_tokens() {
    let student_entries = [("ab", 1), ("c", 2), ("\u{120}x", 3), ("abc", 4)];
    let teacher = aligner(&[("\u{120}abcab", 0), ("cc", 1), ("\u{120}x", 2)], TokenizationAlgorithm::BPE);
    let student = aligner(&student_entries, TokenizationAlgorithm::BPE);
    let student_vocab = v(&student_entries);
    let m = Matrix::generate_output_matrix(student, teacher);
    for (_, aligned) in m.output.iter() {
        for (t, i) in aligned.iter() {
            assert_eq!(student_vocab.get(t), Some(*i));
        }
    }
    assert_eq!(row(&m, "\u{120}abcab").1, owned(&[]));
    assert_eq!(row(&m, "cc").1, owned(&[("c", 2), ("c", 2)]));
    assert_eq!(row(&m, "\u{120}x").1, owned(&[("\u{120}x", 3)]));
}

#[test]
fn alignment_does_not_depend_on_teacher_order() {
    let student = [("a", 1), ("b", 2), ("ab", 3)];
    let m1 = Matrix::generate_output_matrix(
        aligner(&student, TokenizationAlgorithm::BPE),
        aligner(&[("ab", 0), ("ba", 1)], TokenizationAlgorithm::BPE),
    );
    let m2 = Matrix::generate_output_matrix(
        aligner(&student, TokenizationAlgorithm::BPE),
        aligner(&[("ba", 1), ("ab", 0)], TokenizationAlgorithm::BPE),
    );
    assert_eq!(row(&m1, "ab"), row(&m2, "ab"));
    assert_eq!(row(&m1, "ba"), row(&m2, "ba"));
    assert_eq!(row(&m1, "ba").1, owned(&[("b", 2), ("a", 1)]));
}

#[test]
fn from_tokenizer_reads_wordpiece_vocab() {
    let model = WordPiece::builder()
        .vocab([("[UNK]".to_string(), 0u32), ("hello".to_string(), 1), ("##lo".to_string(), 2)])
        .build()
        .unwrap();
    let a = Aligner::from_tokenizer(Tokenizer::new(model));
    assert_eq!(a.tokenization_algorithm, TokenizationAlgorithm::WordPiece);
    assert_eq!(a.vocab.len(), 3);
    assert_eq!(a.vocab.get("hello"), Some(1));
    assert_eq!(a.vocab.get("##lo"), Some(2));
    assert_eq!(a.vocab.get("lo"), None);
}

#[test]
fn from_tokenizer_reads_bpe_and_word_level_schemes() {
    let model = BPE::builder()
        .vocab_and_merges([("a".to_string(), 0u32), ("b".to_string(), 1)], vec![])
        .build()
        .unwrap();
    let a = Aligner::from_tokenizer(Tokenizer::new(model));
    assert_eq!(a.tokenization_algorithm, TokenizationAlgorithm::BPE);
    assert_eq!(a.vocab.get("b"), Some(1));
    let w = Aligner::from_tokenizer(plain_tokenizer());
    assert_eq!(w.tokenization_algorithm, TokenizationAlgorithm::WordLevel);
}

#[test]
fn from_tokenizer_includes_added_tokens() {
    let model = WordPiece::builder()
        .vocab([("[UNK]".to_string(), 0u32), ("hello".to_string(), 1)])
        .build()
        .unwrap();
    let mut tokenizer = Tokenizer::new(model);
    tokenizer.add_tokens(vec![AddedToken::from("<extra>", false)]).unwrap();
    let a = Aligner::from_tokenizer(tokenizer);
    assert_eq!(a.vocab.len(), 3);
    assert_eq!(a.vocab.get("<extra>"), Some(2));
    assert_eq!(a.vocab.get("hello"), Some(1));
}
