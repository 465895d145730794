use prompt_condensor::metrics::{count_tokens, count_tokens_accurate};

#[test]
fn test_token_counting() {
    let text = "Hello, world!";
    let tokens = count_tokens(text);
    assert!(tokens > 0);
    assert_eq!(tokens, (text.len() as f32 * 0.25) as usize);
}

#[test]
fn test_empty_text() {
    assert_eq!(count_tokens(""), 0);
}

#[test]
fn test_accurate_counting_fallback() {
    let text = "This is a test";
    assert_eq!(count_tokens_accurate(text), count_tokens(text));
}

#[test]
fn token_count_is_a_quarter_of_the_bytes() {
    assert_eq!(count_tokens("abc"), 0);
    assert_eq!(count_tokens("abcd"), 1);
    assert_eq!(count_tokens("abcdefg"), 1);
    assert_eq!(count_tokens("abcdefgh"), 2);
    // Multi-byte characters count by their UTF-8 bytes.
    assert_eq!(count_tokens("éé"), 1);
    assert_eq!(count_tokens("日本"), 1);
}

#[test]
fn token_count_matches_single_precision_for_large_texts() {
    for len in [0usize, 1, 7, 1000, (1 << 24) - 1, 1 << 24, (1 << 24) + 1, (1 << 24) + 3, (1 << 24) + 6] {
        let text = "a".repeat(len);
        assert_eq!(count_tokens(&text), (0.25f32 * len as f32) as usize, "length {}", len);
    }
}
