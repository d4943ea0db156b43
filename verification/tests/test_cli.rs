use mini_llm::cli::{parse_args, parse_unsigned};

fn args(list: &[&str]) -> Vec<String> {
    list.iter().map(|s| s.to_string()).collect()
}

#[test]
fn test_defaults() {
    let a = parse_args(&args(&["prog"]));
    assert_eq!(a.model_path, None);
    assert_eq!(a.prompt, "the meaning of life is");
    assert_eq!(a.max_tokens, 30);
    assert_eq!(a.top_k, 40);
    assert_eq!(a.seed, 42);
    assert!(a.temperature_texts.is_empty());
    assert!(a.top_p_texts.is_empty());
    assert_eq!(parse_args(&[]).max_tokens, 30);
}

#[test]
fn test_options_are_read() {
    let a = parse_args(&args(&[
        "prog", "-m", "model.gguf", "--prompt", "hello", "-n", "12", "--top-k", "5", "--seed", "7",
        "-t", "0.5", "--top-p", "0.8",
    ]));
    assert_eq!(a.model_path.as_deref(), Some("model.gguf"));
    assert_eq!(a.prompt, "hello");
    assert_eq!(a.max_tokens, 12);
    assert_eq!(a.top_k, 5);
    assert_eq!(a.seed, 7);
    assert_eq!(a.temperature_texts, vec!["0.5".to_string()]);
    assert_eq!(a.top_p_texts, vec!["0.8".to_string()]);
}

#[test]
fn test_bad_numbers_keep_previous_value() {
    let a = parse_args(&args(&["prog", "-n", "40", "-n", "abc", "--seed", "-3", "--top-k", "+9"]));
    assert_eq!(a.max_tokens, 40);
    assert_eq!(a.seed, 42);
    assert_eq!(a.top_k, 9);
}

#[test]
fn test_missing_value_and_unknown_flags() {
    let a = parse_args(&args(&["prog", "--verbose", "-p"]));
    assert_eq!(a.prompt, "the meaning of life is");
    let b = parse_args(&args(&["prog", "-p", "-n", "3"]));
    assert_eq!(b.prompt, "-n");
    assert_eq!(b.max_tokens, 30);
}

#[test]
fn test_parse_unsigned() {
    assert_eq!(parse_unsigned("0", 10), Some(0));
    assert_eq!(parse_unsigned("007", 10), Some(7));
    assert_eq!(parse_unsigned("+10", 10), Some(10));
    assert_eq!(parse_unsigned("11", 10), None);
    assert_eq!(parse_unsigned("", 10), None);
    assert_eq!(parse_unsigned("+", 10), None);
    assert_eq!(parse_unsigned("1a", 100), None);
    assert_eq!(parse_unsigned(" 1", 100), None);
    assert_eq!(parse_unsigned("18446744073709551615", u64::MAX), Some(u64::MAX));
    assert_eq!(parse_unsigned("18446744073709551616", u64::MAX), None);
    assert_eq!(parse_unsigned("99999999999999999999999", 5), None);
}
