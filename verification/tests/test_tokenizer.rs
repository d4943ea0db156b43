use mini_llm::tokenizer::{BpeTokenizer, TokenizerError};

#[test]
fn test_bpe_roundtrip() {
    let tokenizer = BpeTokenizer::new_default();
    let text = "the meaning of life";

    let tokens = tokenizer.encode(text, false);
    assert!(!tokens.is_empty());

    let decoded = tokenizer.decode(&tokens).unwrap();
    assert_eq!(decoded, text);
}

#[test]
fn test_bpe_bos_handling() {
    let tokenizer = BpeTokenizer::new_default();
    let text = "the life";

    let tokens_with_bos = tokenizer.encode(text, true);
    assert_eq!(tokens_with_bos[0], tokenizer.bos_id().unwrap());

    let tokens_no_bos = tokenizer.encode(text, false);
    assert_eq!(tokens_with_bos.len(), tokens_no_bos.len() + 1);

    // Decoding should skip BOS
    let decoded = tokenizer.decode(&tokens_with_bos).unwrap();
    assert_eq!(decoded, text);
}

#[test]
fn test_decode_unknown_token() {
    let tokenizer = BpeTokenizer::new_default();
    let bad = tokenizer.vocab_size() + 1000;
    assert_eq!(tokenizer.decode(&[bad]), Err(TokenizerError::TokenNotFound(bad)));
}

#[test]
fn test_decode_skips_eos() {
    let tokenizer = BpeTokenizer::new_default();
    let mut tokens = tokenizer.encode("the", false);
    tokens.push(tokenizer.eos_id().unwrap());
    assert_eq!(tokenizer.decode(&tokens).unwrap(), "the");
}

#[test]
fn test_merges_shorten_encoding() {
    let tokenizer = BpeTokenizer::new_default();
    let tokens = tokenizer.encode("the", false);
    // "t" "h" "e" merge into fewer pieces than characters.
    assert!(tokens.len() < 3);
    assert_eq!(tokenizer.decode(&tokens).unwrap(), "the");
}

#[test]
fn test_custom_vocabulary() {
    let vocab = vec![
        ("<s>".to_string(), 0),
        ("</s>".to_string(), 1),
        ("<unk>".to_string(), 2),
        ("a".to_string(), 3),
        ("b".to_string(), 4),
        ("ab".to_string(), 5),
    ];
    let merges = vec![(("a".to_string(), "b".to_string()), 0)];
    let tok = BpeTokenizer::new(vocab, merges, Some(0), Some(1), Some(2));
    assert_eq!(tok.vocab_size(), 6);
    assert_eq!(tok.encode("abab", false), vec![5, 5]);
    assert_eq!(tok.encode("ba", true), vec![0, 4, 3]);
    assert_eq!(tok.encode("c", false), vec![2]);
    assert_eq!(tok.decode(&[0, 5, 4, 1]).unwrap(), "abb");
}

#[test]
fn test_default_tokenizer_latin1_roundtrip() {
    let tokenizer = BpeTokenizer::new_default();
    let text = "café ÿ À×÷ the end!\n\t~";
    for add_bos in [false, true] {
        let tokens = tokenizer.encode(text, add_bos);
        assert_eq!(tokenizer.decode(&tokens).unwrap(), text);
    }
    assert_eq!(tokenizer.decode(&tokenizer.encode("", true)).unwrap(), "");
}
