//! A tokenizer together with the vocabulary and tokenization scheme that the
//! alignment reads from it.
use crate::vocab::{entries_map, keys_distinct, pairs_view, Vocab};
use tokenizers::models::ModelWrapper;
use tokenizers::tokenizer::Tokenizer;
use vstd::prelude::*;

verus! {

/// The tokenization scheme of a model, which decides how the start of a
/// word, or its continuation, is marked in its tokens.
#[derive(Debug, Clone, Copy, PartialEq, Eq, Structural)]
pub enum TokenizationAlgorithm {
    BPE,
    WordPiece,
    Unigram,
    WordLevel,
}

#[verifier::external_type_specification]
#[verifier::external_body]
pub struct ExTokenizer(Tokenizer);

/// The scheme of the model that `tokenizers::Tokenizer::get_model` returns
/// for `tokenizer`: a function of the tokenizer alone.
pub uninterp spec fn tokenizer_scheme(tokenizer: Tokenizer) -> TokenizationAlgorithm;

/// The vocabulary, added tokens included, that
/// `tokenizers::TokenizerImpl::get_vocab(true)` returns for `tokenizer`, as a
/// map from token to id: a function of the tokenizer alone.
pub uninterp spec fn tokenizer_vocab_map(tokenizer: Tokenizer) -> Map<Seq<char>, u32>;

/// Which model `tokenizers::Tokenizer::get_model` reports, one arm per variant
/// of `tokenizers::models::ModelWrapper`.  What the model is cannot be seen
/// from verified code; the result is claimed to be the named scheme of the
/// tokenizer.
#[verifier::external_body]
fn tokenizer_algorithm(tokenizer: &Tokenizer) -> (algorithm: TokenizationAlgorithm)
    ensures
        algorithm == tokenizer_scheme(*tokenizer),
{
    match tokenizer.get_model() {
        ModelWrapper::BPE(_) => TokenizationAlgorithm::BPE,
        ModelWrapper::WordPiece(_) => TokenizationAlgorithm::WordPiece,
        ModelWrapper::Unigram(_) => TokenizationAlgorithm::Unigram,
        ModelWrapper::WordLevel(_) => TokenizationAlgorithm::WordLevel,
    }
}

/// `tokenizers::TokenizerImpl::get_vocab(true)`: the model's vocabulary
/// together with the added tokens, handed out as the `(token, id)` pairs of
/// the `HashMap` that it returns.  Claimed: a `HashMap` holds no key twice,
/// and the pairs read as a map are the named vocabulary of the tokenizer.
/// Left unsaid: the order of the pairs, which is the order in which that map
/// is walked and depends on its hasher's seed.
#[verifier::external_body]
fn tokenizer_vocab(tokenizer: &Tokenizer) -> (entries: Vec<(String, u32)>)
    ensures
        keys_distinct(pairs_view(entries@)),
        entries_map(pairs_view(entries@)) == tokenizer_vocab_map(*tokenizer),
{
    tokenizer.get_vocab(true).into_iter().collect()
}

/// A tokenizer, its vocabulary (added tokens included) and its scheme.
pub struct Aligner {
    pub tokenizer: Tokenizer,
    pub vocab: Vocab,
    pub tokenization_algorithm: TokenizationAlgorithm,
}

impl Aligner {
    /// Reads the vocabulary (added tokens included) and the scheme out of
    /// `tokenizer` and keeps the tokenizer beside them.
    pub fn from_tokenizer(tokenizer: Tokenizer) -> (aligner: Aligner)
        ensures
            aligner.tokenizer == tokenizer,
            aligner.vocab@ == tokenizer_vocab_map(tokenizer),
            aligner.tokenization_algorithm == tokenizer_scheme(tokenizer),
    {
        let entries = tokenizer_vocab(&tokenizer);
        let vocab = Vocab::from_entries(entries);
        let tokenization_algorithm = tokenizer_algorithm(&tokenizer);
        Aligner { tokenizer, vocab, tokenization_algorithm }
    }
}

} // verus!
