use tokenizer_aligner::vocab::Vocab;

fn v(entries: &[(&str, u32)]) -> Vocab {
    Vocab::from_entries(entries.iter().map(|(t, i)| (t.to_string(), *i)).collect())
}

#[test]
fn vocab_get_and_contains() {
    let vocab = v(&[("a", 1), ("bc", 2)]);
    assert_eq!(vocab.len(), 2);
    assert_eq!(vocab.get("a"), Some(1));
    assert_eq!(vocab.get("bc"), Some(2));
    assert_eq!(vocab.get("b"), None);
    assert!(vocab.contains_key("bc"));
    assert!(!vocab.contains_key(""));
}

#[test]
fn vocab_keeps_entry_order() {
    let vocab = v(&[("z", 9), ("y", 8), ("x", 7)]);
    let (t0, i0) = vocab.entry(0);
    let (t2, i2) = vocab.entry(2);
    assert_eq!((t0.as_str(), i0), ("z", 9));
    assert_eq!((t2.as_str(), i2), ("x", 7));
}

#[test]
fn vocab_later_entry_replaces_earlier() {
    let vocab = v(&[("a", 1), ("b", 2), ("a", 3)]);
    assert_eq!(vocab.len(), 2);
    assert_eq!(vocab.get("a"), Some(3));
    let (t0, i0) = vocab.entry(0);
    assert_eq!((t0.as_str(), i0), ("a", 3));
}

#[test]
fn vocab_insert_then_get() {
    let mut vocab = Vocab::new();
    assert_eq!(vocab.len(), 0);
    vocab.insert("x".to_string(), 5);
    assert_eq!(vocab.get("x"), Some(5));
    vocab.insert("y".to_string(), 6);
    vocab.insert("x".to_string(), 7);
    assert_eq!(vocab.get("x"), Some(7));
    assert_eq!(vocab.get("y"), Some(6));
    assert_eq!(vocab.len(), 2);
}
