//! Aligns the vocabulary of a "teacher" tokenizer with the vocabulary of a
//! "student" tokenizer: every teacher token is mapped to the student token
//! that spells the same text, or to a greedy split of that text into
//! student tokens.
pub mod aligner;
pub mod matching_algorithm;
pub mod text;
pub mod vocab;
