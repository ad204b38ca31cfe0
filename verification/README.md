# tokenizer_aligner

Aligns the vocabulary of a "teacher" tokenizer with that of a "student"
tokenizer. Each teacher token is rewritten into the student's way of marking
word starts (BPE `\u{120}`, Unigram `\u{2581}`) and word continuations
(WordPiece `##`); the rewritten token is matched exactly against the student
vocabulary, or else split greedily into the longest student tokens that spell
it.

Layout:

- `src/vocab.rs` — `Vocab`, a vocabulary with a fixed walking order and a
  lookup index, kept consistent by a type invariant.
- `src/text.rs` — the marks of the schemes and prefix tests on strings.
- `src/aligner/aligner_define.rs` — `TokenizationAlgorithm` and `Aligner`,
  which reads a vocabulary and scheme out of a `tokenizers::Tokenizer`.
- `src/matching_algorithm/segmentation.rs` — the greedy longest-prefix split.
- `src/matching_algorithm/teacher_flow.rs` — the rewriting rules and
  `Matrix::generate_output_matrix`.
- `src/matching_algorithm/laws.rs` — properties of the alignment as a whole.
- `app/main.rs` — downloads two pretrained tokenizers, aligns them and writes
  the result and debug listings to files.
