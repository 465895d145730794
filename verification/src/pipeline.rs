//! The compression stages applied to a prompt in priority order: text
//! preprocessing first, then semantic compression.

use vstd::prelude::*;
use crate::metrics::{count_tokens, token_estimate};
use crate::algorithms::text_preprocessing::{preprocessed, TextPreprocessor};
use crate::algorithms::semantic_compression::{condensed, SemanticCompressor};
use crate::text::{is_blank, trim_ws};

verus! {

/// Available compression strategies.
#[derive(Clone, Copy, Debug, PartialEq, Eq, Structural)]
pub enum CompressionStrategy {
    /// Conservative compression - prioritizes semantic preservation
    Conservative,
    /// Balanced compression - good mix of compression and preservation
    Balanced,
    /// Aggressive compression - maximizes token reduction
    Aggressive,
}

/// Why a prompt was not compressed.
#[derive(Clone, Copy, Debug, PartialEq, Eq, Structural)]
pub enum PromptError {
    /// The prompt holds nothing but white space.
    EmptyPrompt,
}

impl PromptError {
    /// The message that goes with the error.
    pub fn message(&self) -> (m: &'static str)
        ensures
            m@ == "Empty prompt"@,
    {
        "Empty prompt"
    }
}

/// The texts and token counts that the stages produce for one prompt.
pub struct StagedCompression {
    /// Token count of the prompt
    pub original_tokens: usize,
    /// The prompt after text preprocessing
    pub preprocessed_text: String,
    /// Token count after text preprocessing
    pub preprocessed_tokens: usize,
    /// The prompt after both stages
    pub compressed_text: String,
    /// Token count after both stages
    pub compressed_tokens: usize,
}

/// Runs both stages on `prompt`; a prompt of nothing but white space is refused.
pub fn run_stages(
    preprocessor: &TextPreprocessor,
    semantic: &SemanticCompressor,
    prompt: &str,
    aggressive: bool,
) -> (r: Result<StagedCompression, PromptError>)
    ensures
        r is Err <==> trim_ws(prompt@).len() == 0,
        r matches Ok(s) ==> {
            &&& s.original_tokens == token_estimate(prompt@)
            &&& s.preprocessed_text@ == preprocessed(prompt@, aggressive)
            &&& s.preprocessed_tokens == token_estimate(s.preprocessed_text@)
            &&& s.compressed_text@ == condensed(preprocessed(prompt@, aggressive))
            &&& s.compressed_tokens == token_estimate(s.compressed_text@)
        },
{
    if is_blank(prompt) {
        return Err(PromptError::EmptyPrompt);
    }
    let original_tokens: usize = count_tokens(prompt);
    let preprocessed_text = preprocessor.compress_text(prompt, aggressive);
    let preprocessed_tokens: usize = count_tokens(preprocessed_text.as_str());
    let compressed_text = semantic.compress_text(preprocessed_text.as_str());
    let compressed_tokens: usize = count_tokens(compressed_text.as_str());
    Ok(
        StagedCompression {
            original_tokens,
            preprocessed_text,
            preprocessed_tokens,
            compressed_text,
            compressed_tokens,
        },
    )
}

/// Tokens saved by a compression: the difference when the count went down, else 0.
pub fn tokens_saved(original_tokens: usize, compressed_tokens: usize) -> (saved: usize)
    ensures
        saved == if original_tokens >= compressed_tokens {
            original_tokens - compressed_tokens
        } else {
            0
        },
{
    if original_tokens >= compressed_tokens {
        original_tokens - compressed_tokens
    } else {
        0
    }
}

} // verus!
