use prompt_condensor::metrics::count_tokens;
use prompt_condensor::pipeline::{run_stages, tokens_saved, PromptError};
use prompt_condensor::validation::{check_outcome, OutcomeIssue};
use prompt_condensor::algorithms::text_preprocessing::TextPreprocessor;
use prompt_condensor::algorithms::semantic_compression::{SemanticCompressor, SimilarityBasis};

/// Score of a preprocessing pass (single precision).
fn preprocessing_similarity(text: &str, compressed: &str, original: usize, kept: usize) -> f32 {
    if compressed == text {
        100.0
    } else {
        let share = if original > 0 { kept as f32 / original as f32 } else { 1.0 };
        (95.0 + share * 5.0).min(100.0)
    }
}

/// Score of a semantic pass from what the compressor counted (single precision).
fn semantic_similarity(basis: SimilarityBasis) -> f32 {
    match basis {
        SimilarityBasis::Identical => 100.0,
        SimilarityBasis::NoWords { compressed_has_words } => {
            if compressed_has_words {
                0.0
            } else {
                100.0
            }
        }
        SimilarityBasis::NoImportantWords => 90.0,
        SimilarityBasis::Counted { preserved, important } => {
            let share = (preserved as f32 / important as f32) * 100.0;
            (share * 0.9 + 10.0).min(100.0).max(80.0)
        }
    }
}

/// Percentage of tokens saved, zero when nothing was saved.
fn compression_ratio(original: usize, compressed: usize) -> f32 {
    if original > 0 && compressed <= original {
        ((original - compressed) as f32 / original as f32) * 100.0
    } else {
        0.0
    }
}

/// The product of the two stage scores, as the pipeline reports it.
fn pipeline_similarity(pre: &TextPreprocessor, sem: &SemanticCompressor, prompt: &str, aggressive: bool) -> (String, usize, usize, f32) {
    let staged = run_stages(pre, sem, prompt, aggressive).unwrap();
    let first = preprocessing_similarity(
        prompt,
        &staged.preprocessed_text,
        staged.original_tokens,
        staged.preprocessed_tokens,
    );
    let second = semantic_similarity(sem.similarity_basis(&staged.preprocessed_text, &staged.compressed_text));
    let total = ((100.0f32 * first) / 100.0 * second) / 100.0;
    (staged.compressed_text, staged.original_tokens, staged.compressed_tokens, total)
}

#[test]
fn blank_prompts_are_refused() {
    let pre = TextPreprocessor::new().unwrap();
    let sem = SemanticCompressor::new().unwrap();
    assert_eq!(run_stages(&pre, &sem, "", false).err(), Some(PromptError::EmptyPrompt));
    assert_eq!(run_stages(&pre, &sem, " \n\t ", true).err(), Some(PromptError::EmptyPrompt));
    assert_eq!(PromptError::EmptyPrompt.message(), "Empty prompt");
}

#[test]
fn stages_reduce_a_wordy_prompt() {
    let pre = TextPreprocessor::new().unwrap();
    let sem = SemanticCompressor::new().unwrap();
    let prompt = "Could you please help me accomplish this additional task with the information that was provided to me earlier? I would like to understand how to implement a function that processes the data efficiently.";
    let staged = run_stages(&pre, &sem, prompt, false).unwrap();
    assert_eq!(staged.original_tokens, count_tokens(prompt));
    assert_eq!(staged.preprocessed_text, pre.compress_text(prompt, false));
    assert_eq!(staged.compressed_text, sem.compress_text(&staged.preprocessed_text));
    assert_eq!(staged.compressed_tokens, count_tokens(&staged.compressed_text));
    assert!(staged.compressed_tokens < staged.original_tokens);
}

#[test]
fn aggressive_stages_reduce_more() {
    let pre = TextPreprocessor::new().unwrap();
    let sem = SemanticCompressor::new().unwrap();
    let prompt = "In order to accomplish this particular task, I would like to request your assistance with the implementation of a comprehensive solution that will help me understand the various aspects of the problem.";
    let staged = run_stages(&pre, &sem, prompt, true).unwrap();
    // More than a fifth of the tokens go.
    assert!(staged.compressed_tokens * 5 < staged.original_tokens * 4);
}

#[test]
fn outcome_checks() {
    assert_eq!(check_outcome(100, 80, "compressed"), Ok(()));
    assert_eq!(
        check_outcome(100, 120, "much longer compressed text that is worse"),
        Err(OutcomeIssue::MoreTokensThanOriginal)
    );
    assert_eq!(check_outcome(100, 120, "   "), Err(OutcomeIssue::MoreTokensThanOriginal));
    assert_eq!(check_outcome(10, 0, " \n"), Err(OutcomeIssue::EmptyResult));
    assert_eq!(
        OutcomeIssue::MoreTokensThanOriginal.message(),
        "Compression resulted in more tokens than original"
    );
    assert_eq!(OutcomeIssue::EmptyResult.message(), "Compression resulted in empty text");
}

#[test]
fn saved_tokens_never_negative() {
    assert_eq!(tokens_saved(100, 80), 20);
    assert_eq!(tokens_saved(100, 120), 0);
    assert_eq!(tokens_saved(0, 0), 0);
}

#[test]
fn test_end_to_end_compression() {
    let pre = TextPreprocessor::new().unwrap();
    let sem = SemanticCompressor::new().unwrap();
    let prompt = "Could you please help me accomplish this additional task with the information that was provided to me earlier? I would like to understand how to implement a function that processes the data efficiently.";
    let (_, original, compressed, score) = pipeline_similarity(&pre, &sem, prompt, false);
    assert!(compressed < original);
    assert!(compression_ratio(original, compressed) > 0.0);
    assert!(score >= 80.0);
    // The energy figures are positive multiples of the tokens saved.
    assert!(tokens_saved(original, compressed) > 0);
}

#[test]
fn integration_test_test_code_preservation() {
    let pre = TextPreprocessor::new().unwrap();
    let sem = SemanticCompressor::new().unwrap();
    let prompt = "Please help me write a function that processes ```python\ndef hello_world():\n    print('Hello, World!')\n    return True\n``` and returns the result efficiently.";
    let (text, original, compressed, score) = pipeline_similarity(&pre, &sem, prompt, false);
    assert!(text.contains("```python"));
    assert!(text.contains("def hello_world():"));
    assert!(text.contains("return true") || text.contains("return True"));
    assert!(compression_ratio(original, compressed) > 0.0);
    assert!(score >= 80.0);
}

#[test]
fn test_aggressive_compression() {
    let pre = TextPreprocessor::new().unwrap();
    let sem = SemanticCompressor::new().unwrap();
    let prompt = "In order to accomplish this particular task, I would like to request your assistance with the implementation of a comprehensive solution that will help me understand the various aspects of the problem.";
    let (_, original, compressed, score) = pipeline_similarity(&pre, &sem, prompt, true);
    assert!(compression_ratio(original, compressed) > 20.0);
    assert!(score >= 75.0);
}
