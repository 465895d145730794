//! Quality checks on a compression outcome that do not involve its similarity score.

use vstd::prelude::*;
use crate::text::{is_blank, trim_ws};

verus! {

/// A compression outcome that validation rejects for a reason other than similarity.
#[derive(Clone, Copy, Debug, PartialEq, Eq, Structural)]
pub enum OutcomeIssue {
    /// The compressed text costs more tokens than the original.
    MoreTokensThanOriginal,
    /// The compressed text holds nothing but white space.
    EmptyResult,
}

impl OutcomeIssue {
    /// The message that goes with the issue.
    pub fn message(&self) -> (m: &'static str)
        ensures
            m@ == match self {
                OutcomeIssue::MoreTokensThanOriginal => "Compression resulted in more tokens than original"@,
                OutcomeIssue::EmptyResult => "Compression resulted in empty text"@,
            },
    {
        match self {
            OutcomeIssue::MoreTokensThanOriginal => "Compression resulted in more tokens than original",
            OutcomeIssue::EmptyResult => "Compression resulted in empty text",
        }
    }
}

/// The checks of a compression outcome after the similarity check: more tokens
/// than the original is refused first, then a blank text.
pub fn check_outcome(original_tokens: usize, compressed_tokens: usize, compressed_text: &str) -> (r: Result<(), OutcomeIssue>)
    ensures
        r == if compressed_tokens > original_tokens {
            Err(OutcomeIssue::MoreTokensThanOriginal)
        } else if trim_ws(compressed_text@).len() == 0 {
            Err(OutcomeIssue::EmptyResult)
        } else {
            Ok(())
        },
{
    if compressed_tokens > original_tokens {
        return Err(OutcomeIssue::MoreTokensThanOriginal);
    }
    if is_blank(compressed_text) {
        return Err(OutcomeIssue::EmptyResult);
    }
    Ok(())
}

} // verus!
