use prompt_condensor::algorithms::semantic_compression::{whole_word_regex, SemanticCompressor, SimilarityBasis};
use prompt_condensor::metrics::count_tokens;

fn compressor() -> SemanticCompressor {
    SemanticCompressor::new().expect("the compressor's patterns compile")
}

/// Score of a semantic pass from what the compressor counted (single precision).
fn similarity(basis: SimilarityBasis) -> f32 {
    match basis {
        SimilarityBasis::Identical => 100.0,
        SimilarityBasis::NoWords { compressed_has_words } => {
            if compressed_has_words {
                0.0
            } else {
                100.0
            }
        }
        SimilarityBasis::NoImportantWords => 90.0,
        SimilarityBasis::Counted { preserved, important } => {
            let share = (preserved as f32 / important as f32) * 100.0;
            (share * 0.9 + 10.0).min(100.0).max(80.0)
        }
    }
}

/// Percentage of tokens saved, zero when nothing was saved.
fn compression_ratio(original: usize, compressed: usize) -> f32 {
    if original > 0 && compressed <= original {
        ((original - compressed) as f32 / original as f32) * 100.0
    } else {
        0.0
    }
}

#[test]
fn test_synonym_replacement() {
    let compressor = compressor();
    let text = "Please help me accomplish this additional task.";
    let result = compressor.apply_synonyms(text);
    assert!(result.contains("do"));
    assert!(result.contains("more"));
}

#[test]
fn test_phrase_optimization() {
    let compressor = compressor();
    let text = "Could you please help me with this problem?";
    let result = compressor.apply_phrase_optimizations(text);
    assert!(result.len() < text.len());
}

#[test]
fn semantic_compression_test_code_preservation() {
    let compressor = compressor();
    let text = "Here is some code: ```python\nprint('hello')\n``` and `inline_code`.";
    let (preserved, items) = compressor.preserve_technical_content(text);

    assert!(preserved.contains("__CODE_BLOCK_"));
    assert!(preserved.contains("__INLINE_CODE_"));
    assert_eq!(items.len(), 2);

    let restored = compressor.restore_technical_content(&preserved, items);
    assert_eq!(restored, text);
}

#[test]
fn synonyms_replace_whole_words_only() {
    let compressor = compressor();
    assert_eq!(compressor.apply_synonyms("However, it is IMPORTANT"), "but, it is key");
    assert_eq!(compressor.apply_synonyms("unimportantly"), "unimportantly");
}

#[test]
fn whole_word_regex_escapes_meta_characters() {
    assert_eq!(whole_word_regex("plain"), "\\bplain\\b");
    assert_eq!(whole_word_regex("a.b+c"), "\\ba\\.b\\+c\\b");
}

#[test]
fn phrase_optimization_keeps_placeholders() {
    let compressor = compressor();
    let text = "Could you please look at __CODE_BLOCK_0__ and make sure that it works";
    let result = compressor.apply_phrase_optimizations(text);
    assert_eq!(result, "please look at __CODE_BLOCK_0__ and ensure it works");
}

#[test]
fn technical_content_numbered_in_order() {
    let compressor = compressor();
    let text = "see https://example.com/x and `a` then `b`";
    let (preserved, items) = compressor.preserve_technical_content(text);
    assert_eq!(preserved, "see __URL_0__ and __INLINE_CODE_0__ then __INLINE_CODE_1__");
    assert_eq!(
        items,
        vec![
            ("__INLINE_CODE_0__".to_string(), "`a`".to_string()),
            ("__INLINE_CODE_1__".to_string(), "`b`".to_string()),
            ("__URL_0__".to_string(), "https://example.com/x".to_string()),
        ]
    );
    assert_eq!(compressor.restore_technical_content(&preserved, items), text);
}

#[test]
fn restore_also_replaces_lowercased_placeholders() {
    let compressor = compressor();
    let items = vec![("__URL_0__".to_string(), "https://a.b".to_string())];
    assert_eq!(
        compressor.restore_technical_content("go to __url_0__ or __URL_0__", items),
        "go to https://a.b or https://a.b"
    );
}

#[test]
fn compression_keeps_code_blocks() {
    let compressor = compressor();
    let text = "Please help me write a function that processes ```python\ndef hello():\n    print('world')\n``` and returns the result.";
    let result = compressor.compress_text(text);
    assert!(result.contains("```python\ndef hello():\n    print('world')\n```"));
    assert!(result.starts_with("help me function to processes"));
}

#[test]
fn similarity_basis_cases() {
    let compressor = compressor();
    assert_eq!(compressor.similarity_basis("same text", "same text"), SimilarityBasis::Identical);
    assert_eq!(
        compressor.similarity_basis("   ", ""),
        SimilarityBasis::NoWords { compressed_has_words: false }
    );
    assert_eq!(
        compressor.similarity_basis("", "x"),
        SimilarityBasis::NoWords { compressed_has_words: true }
    );
    assert_eq!(compressor.similarity_basis("a to be", "a be"), SimilarityBasis::NoImportantWords);
    assert_eq!(
        compressor.similarity_basis(
            "This is a test with important words",
            "This is test with key words"
        ),
        SimilarityBasis::Counted { preserved: 4, important: 5 }
    );
    // Byte length, not character count, decides which words are important.
    assert_eq!(
        compressor.similarity_basis("été", "x"),
        SimilarityBasis::Counted { preserved: 0, important: 1 }
    );
}

#[test]
fn semantic_compression_test_full_compression() {
    let compressor = compressor();
    let text = "Could you please help me accomplish this additional task with the information provided?";
    let compressed = compressor.compress_text(text);
    let original_tokens = count_tokens(text);
    let compressed_tokens = count_tokens(&compressed);
    let score = similarity(compressor.similarity_basis(text, &compressed));

    assert!(compressed_tokens <= original_tokens);
    assert!(score >= 80.0);
    assert!(compression_ratio(original_tokens, compressed_tokens) >= 0.0);
}

#[test]
fn test_similarity_calculation() {
    let compressor = compressor();
    let original = "This is a test with important words";
    let compressed = "This is test with key words";
    let score = similarity(compressor.similarity_basis(original, compressed));
    assert!(score > 80.0);
    assert!(score <= 100.0);
}

#[test]
fn test_technical_content_preservation() {
    let compressor = compressor();
    let text = "Please help me write a function that processes ```python\ndef hello():\n    print('world')\n``` and returns the result.";
    let compressed = compressor.compress_text(text);
    assert!(compressed.contains("```python"));
    assert!(similarity(compressor.similarity_basis(text, &compressed)) >= 80.0);
}
