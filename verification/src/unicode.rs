//! Unicode case mapping and character properties, as `std` provides them.
//!
//! These rest on Unicode tables that std carries; their results are named
//! here and the functions that compute them are trusted to give them.

use vstd::prelude::*;

verus! {

/// The lowercase mapping of a text, as `str::to_lowercase` computes it.
pub uninterp spec fn lowercase(s: Seq<char>) -> Seq<char>;

/// Whether a character has the Unicode `Alphabetic` property
/// (`char::is_alphabetic`).
pub uninterp spec fn is_alphabetic(c: char) -> bool;

/// Whether a character has the Unicode `Uppercase` property
/// (`char::is_uppercase`).
pub uninterp spec fn is_uppercase(c: char) -> bool;

/// Calls `str::to_lowercase`; its result is the text's lowercase mapping.
#[verifier::external_body]
pub(crate) fn to_lowercase(text: &str) -> (r: String)
    ensures
        r@ == lowercase(text@),
{
    text.to_lowercase()
}

/// Calls `char::is_alphabetic`.
#[verifier::external_body]
pub(crate) fn char_is_alphabetic(c: char) -> (b: bool)
    ensures
        b == is_alphabetic(c),
{
    c.is_alphabetic()
}

/// Calls `char::is_uppercase`.
#[verifier::external_body]
pub(crate) fn char_is_uppercase(c: char) -> (b: bool)
    ensures
        b == is_uppercase(c),
{
    c.is_uppercase()
}

} // verus!
