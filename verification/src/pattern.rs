//! Regular expressions, through the `regex` crate.
//!
//! What a regular expression matches takes the crate's whole syntax and
//! matching semantics to state; the results of compiling, replacing and
//! searching are therefore named here, as functions of the pattern text and
//! of the haystack, and the calls into the crate are trusted to give them.

use vstd::prelude::*;

verus! {

#[verifier::external_type_specification]
#[verifier::external_body]
pub struct ExRegex(regex::Regex);

/// A compiled regular expression together with the pattern it was compiled from.
pub struct Pattern {
    source: String,
    compiled: regex::Regex,
}

impl View for Pattern {
    type V = Seq<char>;

    /// The pattern text.
    closed spec fn view(&self) -> Seq<char> {
        self.source@
    }
}

/// Whether `regex::Regex::new` accepts the pattern.
pub uninterp spec fn regex_accepts(pattern: Seq<char>) -> bool;

/// `regex::Regex::replace_all` with a replacement text: every non-overlapping
/// leftmost-first match replaced by the replacement, in which `$` group
/// references are expanded as the crate documents.
pub uninterp spec fn regex_replace_all(
    pattern: Seq<char>,
    haystack: Seq<char>,
    replacement: Seq<char>,
) -> Seq<char>;

/// `regex::Regex::replace_all` with a replacer that puts the first character
/// of each match in place of the match.
pub uninterp spec fn regex_replace_all_by_leading_char(
    pattern: Seq<char>,
    haystack: Seq<char>,
) -> Seq<char>;

/// The texts of the successive non-overlapping matches that
/// `regex::Regex::find_iter` yields, in order.
pub uninterp spec fn regex_find_all(pattern: Seq<char>, haystack: Seq<char>) -> Seq<Seq<char>>;

/// The characters that `regex::escape` puts a backslash in front of.
pub open spec fn is_regex_meta(c: char) -> bool {
    c == '\\' || c == '.' || c == '+' || c == '*' || c == '?' || c == '(' || c == ')' || c == '|'
        || c == '[' || c == ']' || c == '{' || c == '}' || c == '^' || c == '$' || c == '#' || c
        == '&' || c == '-' || c == '~'
}

/// `s` with a backslash in front of every meta character, as `regex::escape`
/// returns it.
pub open spec fn regex_escaped(s: Seq<char>) -> Seq<char>
    decreases s.len(),
{
    if s.len() == 0 {
        seq![]
    } else {
        let c = s[0];
        (if is_regex_meta(c) {
            seq!['\\', c]
        } else {
            seq![c]
        }) + regex_escaped(s.drop_first())
    }
}

/// Compiles `pattern` with `regex::Regex::new`.
///
/// Trusted: the result is present exactly when the crate accepts the pattern,
/// and it remembers the pattern text it was compiled from.
#[verifier::external_body]
pub(crate) fn compile(pattern: &str) -> (r: Option<Pattern>)
    ensures
        r is Some <==> regex_accepts(pattern@),
        r matches Some(p) ==> p@ == pattern@,
{
    match regex::Regex::new(pattern) {
        Ok(compiled) => Some(Pattern { source: pattern.to_string(), compiled }),
        Err(_) => None,
    }
}

/// Calls `regex::Regex::replace_all` with a replacement text.
///
/// Trusted: the result is the named replacement of the pattern's matches.
#[verifier::external_body]
pub(crate) fn replace_all(p: &Pattern, haystack: &str, replacement: &str) -> (r: String)
    ensures
        r@ == regex_replace_all(p@, haystack@, replacement@),
{
    p.compiled.replace_all(haystack, replacement).into_owned()
}

/// Calls `regex::Regex::replace_all` with a replacer that keeps the first
/// character of each match, computed by [`leading_char`].
///
/// Trusted: the result is the named replacement of the pattern's matches.
#[verifier::external_body]
pub(crate) fn replace_all_by_leading_char(p: &Pattern, haystack: &str) -> (r: String)
    ensures
        r@ == regex_replace_all_by_leading_char(p@, haystack@),
{
    p.compiled.replace_all(haystack, |caps: &regex::Captures| leading_char(&caps[0])).into_owned()
}

/// Calls `regex::Regex::find_iter` and collects the text of each match.
///
/// Trusted: the texts are the named matches, in order.
#[verifier::external_body]
pub(crate) fn find_all(p: &Pattern, haystack: &str) -> (r: Vec<String>)
    ensures
        crate::text::string_views(r@) == regex_find_all(p@, haystack@),
{
    p.compiled.find_iter(haystack).map(|m| m.as_str().to_string()).collect()
}

/// Calls `regex::escape`.
///
/// Trusted: as the crate's source shows, every meta character gets a
/// backslash in front of it and every other character is kept.
#[verifier::external_body]
pub(crate) fn escape(text: &str) -> (r: String)
    ensures
        r@ == regex_escaped(text@),
{
    regex::escape(text)
}

/// The first character of `m` as a string, or the empty string for an empty `m`.
pub fn leading_char(m: &str) -> (r: String)
    ensures
        r@ == m@.take(if m@.len() > 0 { 1int } else { 0int }),
{
    let v = crate::text::chars_of(m);
    let mut r = String::new();
    if v.len() > 0 {
        crate::text::push_char(&mut r, v[0]);
        assert(r@ =~= m@.take(1));
    } else {
        assert(r@ =~= m@.take(0));
    }
    r
}

} // verus!
