use mini_llm::inference::{Generation, GenerationStep, InferenceError};
use mini_llm::tokenizer::{BpeTokenizer, TokenizerError};

#[test]
fn test_empty_prompt_is_rejected() {
    let tokenizer = BpeTokenizer::new_default();
    assert!(matches!(Generation::start(&tokenizer, "", 10), Err(InferenceError::EmptyPrompt)));
}

#[test]
fn test_start_encodes_prompt_with_bos() {
    let tokenizer = BpeTokenizer::new_default();
    let (g, tokens) = Generation::start(&tokenizer, "the meaning of", 10).unwrap();
    assert_eq!(tokens, tokenizer.encode("the meaning of", true));
    assert_eq!(tokens[0], tokenizer.bos_id().unwrap());
    assert_eq!(g.next_pos, tokens.len());
    assert_eq!(g.remaining, 10);
    assert_eq!(g.text, "");
}

#[test]
fn test_tokens_are_emitted_until_the_limit() {
    let tokenizer = BpeTokenizer::new_default();
    let (mut g, tokens) = Generation::start(&tokenizer, "the", 2).unwrap();
    let t = tokenizer.encode("life", false)[0];
    match g.on_token(&tokenizer, t).unwrap() {
        GenerationStep::Emit { piece, pos } => {
            assert_eq!(piece, tokenizer.decode(&[t]).unwrap());
            assert_eq!(pos, tokens.len());
        }
        GenerationStep::Done => panic!("expected a piece"),
    }
    match g.on_token(&tokenizer, t).unwrap() {
        GenerationStep::Emit { pos, .. } => assert_eq!(pos, tokens.len() + 1),
        GenerationStep::Done => panic!("expected a piece"),
    }
    assert!(matches!(g.on_token(&tokenizer, t).unwrap(), GenerationStep::Done));
    let piece = tokenizer.decode(&[t]).unwrap();
    assert_eq!(g.text, format!("{}{}", piece, piece));
}

#[test]
fn test_eos_ends_generation() {
    let tokenizer = BpeTokenizer::new_default();
    let (mut g, _) = Generation::start(&tokenizer, "the", 5).unwrap();
    let eos = tokenizer.eos_id().unwrap();
    assert!(matches!(g.on_token(&tokenizer, eos).unwrap(), GenerationStep::Done));
    assert_eq!(g.text, "");
    assert_eq!(g.remaining, 5);
}

#[test]
fn test_unknown_token_is_an_error() {
    let tokenizer = BpeTokenizer::new_default();
    let (mut g, _) = Generation::start(&tokenizer, "the", 5).unwrap();
    let bad = tokenizer.vocab_size() + 7;
    match g.on_token(&tokenizer, bad) {
        Err(InferenceError::TokenizerError(TokenizerError::TokenNotFound(id))) => assert_eq!(id, bad),
        _ => panic!("expected TokenNotFound"),
    }
}

#[test]
fn test_inference_error_messages() {
    assert_eq!(InferenceError::EmptyPrompt.message(), "Prompt cannot be empty");
    let e: InferenceError = TokenizerError::TokenNotFound(7).into();
    assert_eq!(e.message(), "Tokenizer error: Token ID 7 not found in vocabulary");
}
