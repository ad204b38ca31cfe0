use tokenizer_aligner::aligner::aligner_define::TokenizationAlgorithm;
use tokenizer_aligner::matching_algorithm::teacher_flow::{
    predicats_middle_of_word_student, predicats_start_of_word_student,
    predicats_start_of_word_teacher,
};

use TokenizationAlgorithm::{Unigram, WordLevel, WordPiece, BPE};

fn s(x: &str) -> String {
    x.to_string()
}

#[test]
fn start_of_word_teacher_bpe() {
    assert!(predicats_start_of_word_teacher(&BPE, &s("\u{120}hello")));
    assert!(!predicats_start_of_word_teacher(&BPE, &s("hello")));
    assert!(!predicats_start_of_word_teacher(&BPE, &s("")));
}

#[test]
fn start_of_word_teacher_wordpiece() {
    assert!(predicats_start_of_word_teacher(&WordPiece, &s("hello")));
    assert!(!predicats_start_of_word_teacher(&WordPiece, &s("##lo")));
    assert!(predicats_start_of_word_teacher(&WordPiece, &s("#lo")));
    assert!(predicats_start_of_word_teacher(&WordPiece, &s("")));
}

#[test]
fn start_of_word_teacher_unigram_and_word_level() {
    assert!(predicats_start_of_word_teacher(&Unigram, &s("\u{2581}hi")));
    assert!(!predicats_start_of_word_teacher(&Unigram, &s("hi")));
    assert!(!predicats_start_of_word_teacher(&WordLevel, &s("\u{120}hi")));
    assert!(!predicats_start_of_word_teacher(&WordLevel, &s("hi")));
}

#[test]
fn start_of_word_student_from_bpe() {
    let t = s("\u{120}hello");
    assert_eq!(predicats_start_of_word_student(&BPE, &BPE, &t), "\u{120}hello");
    assert_eq!(predicats_start_of_word_student(&BPE, &WordPiece, &t), "hello");
    assert_eq!(predicats_start_of_word_student(&BPE, &Unigram, &t), "\u{2581}hello");
    assert_eq!(predicats_start_of_word_student(&BPE, &WordLevel, &t), "WordLevelCase");
}

#[test]
fn start_of_word_student_from_wordpiece() {
    let t = s("hello");
    assert_eq!(predicats_start_of_word_student(&WordPiece, &BPE, &t), "\u{120}hello");
    assert_eq!(predicats_start_of_word_student(&WordPiece, &WordPiece, &t), "hello");
    assert_eq!(predicats_start_of_word_student(&WordPiece, &Unigram, &t), "\u{2581}hello");
    assert_eq!(predicats_start_of_word_student(&WordPiece, &WordLevel, &t), "WordLevelCase");
}

#[test]
fn start_of_word_student_from_unigram() {
    let t = s("\u{2581}hi");
    assert_eq!(predicats_start_of_word_student(&Unigram, &BPE, &t), "\u{120}hi");
    assert_eq!(predicats_start_of_word_student(&Unigram, &WordPiece, &t), "hi");
    assert_eq!(predicats_start_of_word_student(&Unigram, &Unigram, &t), "\u{2581}hi");
    assert_eq!(predicats_start_of_word_student(&Unigram, &WordLevel, &t), "WordLevelCase");
    assert_eq!(predicats_start_of_word_student(&Unigram, &BPE, &s("hi")), "Aint do shit");
}

#[test]
fn start_of_word_student_from_word_level() {
    for student in [BPE, WordPiece, Unigram, WordLevel] {
        assert_eq!(predicats_start_of_word_student(&WordLevel, &student, &s("x")), "WordLevelCase");
    }
}

#[test]
fn middle_of_word_student_all_pairs() {
    assert_eq!(predicats_middle_of_word_student(&BPE, &BPE, &s("lo")), "lo");
    assert_eq!(predicats_middle_of_word_student(&BPE, &WordPiece, &s("lo")), "##lo");
    assert_eq!(predicats_middle_of_word_student(&BPE, &Unigram, &s("lo")), "lo");
    assert_eq!(predicats_middle_of_word_student(&BPE, &WordLevel, &s("lo")), "WordLevelCase");
    assert_eq!(predicats_middle_of_word_student(&WordPiece, &BPE, &s("##lo")), "lo");
    assert_eq!(predicats_middle_of_word_student(&WordPiece, &WordPiece, &s("##lo")), "##lo");
    assert_eq!(predicats_middle_of_word_student(&WordPiece, &Unigram, &s("##lo")), "lo");
    assert_eq!(predicats_middle_of_word_student(&WordPiece, &WordLevel, &s("##lo")), "WordLevelCase");
    assert_eq!(predicats_middle_of_word_student(&Unigram, &BPE, &s("lo")), "lo");
    assert_eq!(predicats_middle_of_word_student(&Unigram, &WordPiece, &s("lo")), "##lo");
    assert_eq!(predicats_middle_of_word_student(&Unigram, &Unigram, &s("lo")), "lo");
    assert_eq!(predicats_middle_of_word_student(&WordLevel, &BPE, &s("lo")), "WordLevelCase");
}

#[test]
fn start_of_word_round_trip_on_values() {
    let subword = [BPE, WordPiece, Unigram];
    let samples = [
        (BPE, s("\u{120}cat")),
        (WordPiece, s("cat")),
        (Unigram, s("\u{2581}cat")),
    ];
    for (teacher, t) in samples.iter() {
        for student in subword.iter() {
            let there = predicats_start_of_word_student(teacher, student, t);
            let back = predicats_start_of_word_student(student, teacher, &there);
            assert_eq!(&back, t);
        }
    }
}

#[test]
fn middle_of_word_round_trip_on_values() {
    let subword = [BPE, WordPiece, Unigram];
    let samples = [(BPE, s("ing")), (WordPiece, s("##ing")), (Unigram, s("ing"))];
    for (teacher, t) in samples.iter() {
        for student in subword.iter() {
            let there = predicats_middle_of_word_student(teacher, student, t);
            let back = predicats_middle_of_word_student(student, teacher, &there);
            assert_eq!(&back, t);
        }
    }
}
