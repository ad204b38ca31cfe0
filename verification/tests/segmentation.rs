use tokenizer_aligner::matching_algorithm::segmentation::greedy_split;
use tokenizer_aligner::vocab::Vocab;

fn v(entries: &[(&str, u32)]) -> Vocab {
    Vocab::from_entries(entries.iter().map(|(t, i)| (t.to_string(), *i)).collect())
}

fn owned(p: &[(&str, u32)]) -> Vec<(String, u32)> {
    p.iter().map(|(t, i)| (t.to_string(), *i)).collect()
}

#[test]
fn greedy_split_whole_word() {
    let vocab = v(&[("un", 1), ("break", 2), ("able", 3), ("u", 4)]);
    assert_eq!(greedy_split(&vocab, "unbreakable"), owned(&[("un", 1), ("break", 2), ("able", 3)]));
}

#[test]
fn greedy_split_takes_longest_prefix() {
    let vocab = v(&[("a", 1), ("ab", 2), ("abc", 3)]);
    assert_eq!(greedy_split(&vocab, "abcab"), owned(&[("abc", 3), ("ab", 2)]));
}

#[test]
fn greedy_split_stops_where_nothing_matches() {
    let vocab = v(&[("un", 1), ("able", 3)]);
    assert_eq!(greedy_split(&vocab, "unxable"), owned(&[("un", 1)]));
    assert_eq!(greedy_split(&vocab, "xun"), owned(&[]));
}

#[test]
fn greedy_split_empty_word() {
    let vocab = v(&[("a", 1)]);
    assert_eq!(greedy_split(&vocab, ""), owned(&[]));
}

#[test]
fn greedy_split_multibyte_characters() {
    let vocab = v(&[("\u{e9}", 5), ("\u{e9}a", 6), ("\u{2581}", 7)]);
    assert_eq!(
        greedy_split(&vocab, "\u{e9}a\u{e9}\u{2581}"),
        owned(&[("\u{e9}a", 6), ("\u{e9}", 5), ("\u{2581}", 7)])
    );
}

#[test]
fn greedy_split_pieces_are_vocab_tokens_and_spell_a_prefix() {
    let vocab = v(&[("ab", 1), ("c", 2), ("cd", 3), ("e", 4)]);
    let word = "abcdecz";
    let split = greedy_split(&vocab, word);
    let mut spelled = String::new();
    for (t, i) in split.iter() {
        assert_eq!(vocab.get(t), Some(*i));
        spelled.push_str(t);
    }
    assert_eq!(spelled, "abcdec");
    assert!(word.starts_with(spelled.as_str()));
}
