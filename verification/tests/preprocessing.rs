use prompt_condensor::metrics::count_tokens;
use prompt_condensor::algorithms::text_preprocessing::TextPreprocessor;

fn preprocessor() -> TextPreprocessor {
    TextPreprocessor::new().expect("the preprocessor's patterns compile")
}

/// Score of a preprocessing pass: 100 when unchanged, else 95 plus five times
/// the share of tokens kept, at most 100 (single precision).
fn preprocessing_similarity(text: &str, compressed: &str, original: usize, kept: usize) -> f32 {
    if compressed == text {
        100.0
    } else {
        let share = if original > 0 { kept as f32 / original as f32 } else { 1.0 };
        (95.0 + share * 5.0).min(100.0)
    }
}

/// Percentage of tokens saved, zero when nothing was saved.
fn compression_ratio(original: usize, compressed: usize) -> f32 {
    if original > 0 && compressed <= original {
        ((original - compressed) as f32 / original as f32) * 100.0
    } else {
        0.0
    }
}

#[test]
fn test_whitespace_normalization() {
    let preprocessor = preprocessor();
    let text = "Hello    world   with   multiple    spaces";
    let result = preprocessor.normalize_whitespace(text);
    assert_eq!(result, "Hello world with multiple spaces");
}

#[test]
fn test_punctuation_normalization() {
    let preprocessor = preprocessor();
    let text = "What is this...??? Really!!!";
    let result = preprocessor.normalize_punctuation(text);
    assert_eq!(result, "What is this.? Really!");
}

#[test]
fn test_contractions() {
    let preprocessor = preprocessor();
    let text = "In order to make a decision, we need to give consideration to the facts.";
    let result = preprocessor.apply_contractions(text);
    assert!(result.contains("to decide"));
    assert!(result.contains("consider"));
}

#[test]
fn test_empty_input() {
    let preprocessor = preprocessor();
    // Empty input still works at the compressor level; the pipeline refuses it.
    let result = preprocessor.compress_text("   ", false);
    assert_eq!(result.trim(), "");
}

#[test]
fn contractions_lowercase_and_shorten() {
    let preprocessor = preprocessor();
    assert_eq!(
        preprocessor.apply_contractions("In Order To make a decision"),
        "to decide"
    );
    assert_eq!(preprocessor.apply_contractions("ABSOLUTELY ESSENTIAL"), "essential");
}

#[test]
fn whitespace_of_every_kind_collapses_and_trims() {
    let preprocessor = preprocessor();
    assert_eq!(preprocessor.normalize_whitespace("\t a \n\n b\u{3000}c  "), "a b c");
    assert_eq!(preprocessor.normalize_whitespace("   "), "");
}

#[test]
fn punctuation_runs_of_different_marks_stay_apart() {
    let preprocessor = preprocessor();
    assert_eq!(preprocessor.normalize_punctuation("Wait.!.!"), "Wait.!.!");
    assert_eq!(preprocessor.normalize_punctuation("Hm.. ok!! why??"), "Hm. ok! why?");
}

#[test]
fn aggressive_mode_drops_articles_and_prepositions() {
    let preprocessor = preprocessor();
    let text = "The quick brown fox jumps over the lazy dog in the park.";
    let result = preprocessor.compress_text(text, true);
    assert_eq!(result, "the quick brown fox jumps over lazy dog park.");
    assert!(count_tokens(&result) < count_tokens(text));
}

#[test]
fn unnecessary_words_kept_at_sentence_starts() {
    let preprocessor = preprocessor();
    assert_eq!(
        preprocessor.remove_unnecessary_words("a cat. the dog with a hat"),
        "a cat. the dog hat"
    );
    assert_eq!(preprocessor.remove_unnecessary_words("  "), "");
    // Punctuation around a removable word does not save it.
    assert_eq!(preprocessor.remove_unnecessary_words("go (to) bed"), "go bed");
}

#[test]
fn default_mode_keeps_every_word() {
    let preprocessor = preprocessor();
    let result = preprocessor.compress_text("In order to    make a decision...   we need facts!!!", false);
    assert_eq!(result, "to decide. we need facts!");
}

#[test]
fn text_preprocessing_test_full_compression() {
    let preprocessor = preprocessor();
    let text = "In order to    make a decision...   we need to give consideration to the facts!!!";
    let compressed = preprocessor.compress_text(text, false);
    let original_tokens = count_tokens(text);
    let compressed_tokens = count_tokens(&compressed);
    let similarity = preprocessing_similarity(text, &compressed, original_tokens, compressed_tokens);

    assert!(compressed_tokens <= original_tokens);
    assert!(similarity >= 95.0);
    assert!(compression_ratio(original_tokens, compressed_tokens) >= 0.0);
}

#[test]
fn test_aggressive_mode() {
    let preprocessor = preprocessor();
    let text = "The quick brown fox jumps over the lazy dog in the park.";
    let compressed = preprocessor.compress_text(text, true);
    assert!(compression_ratio(count_tokens(text), count_tokens(&compressed)) > 0.0);
}

#[test]
fn capitalized_removable_words_are_kept() {
    let preprocessor = preprocessor();
    assert_eq!(preprocessor.remove_unnecessary_words("Visit The Hague"), "Visit The Hague");
    assert_eq!(
        preprocessor.remove_unnecessary_words("visit the hague with The Band"),
        "visit hague The Band"
    );
}
