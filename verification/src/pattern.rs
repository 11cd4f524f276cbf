//! Regular-expression patterns, compiled and searched by the `regex` crate.

use vstd::prelude::*;

verus! {

#[verifier::external_type_specification]
#[verifier::external_body]
pub struct ExRegex(regex::Regex);

#[verifier::external_type_specification]
#[verifier::external_body]
pub struct ExRegexError(regex::Error);

/// Whether `regex::Regex::new` accepts the pattern (valid syntax, within the
/// default size limit).
pub uninterp spec fn regex_compiles(pattern: Seq<char>) -> bool;

/// Whether the regex compiled from `pattern` finds a match anywhere in
/// `haystack` (`regex::Regex::is_match`).
pub uninterp spec fn regex_matches(pattern: Seq<char>, haystack: Seq<char>) -> bool;

/// A regular expression together with the text it was compiled from.
pub struct TextPattern {
    source: String,
    compiled: regex::Regex,
}

/// Calls `regex::Regex::new`. Claimed: it succeeds exactly when the pattern
/// compiles (a property of the pattern text alone), and the compiled value is
/// kept beside a copy of the text it came from.
#[verifier::external_body]
fn compile_text_pattern(source: &str) -> (r: Result<TextPattern, regex::Error>)
    ensures
        r is Ok <==> regex_compiles(source@),
        r matches Ok(p) ==> p.source@ == source@,
{
    match regex::Regex::new(source) {
        Ok(compiled) => Ok(TextPattern { source: source.to_string(), compiled }),
        Err(e) => Err(e),
    }
}

/// Calls `regex::Regex::is_match`. Claimed: the answer is the search result
/// of the pattern text the value was compiled from, on `haystack` (a
/// function of those two texts alone).
#[verifier::external_body]
fn search_text_pattern(pattern: &TextPattern, haystack: &str) -> (r: bool)
    ensures
        r == regex_matches(pattern.source@, haystack@),
{
    pattern.compiled.is_match(haystack)
}

impl TextPattern {
    /// The pattern text.
    pub closed spec fn text(&self) -> Seq<char> {
        self.source@
    }

    /// Compiles `source`; fails exactly when the regex crate refuses it.
    pub fn new(source: &str) -> (r: Result<TextPattern, regex::Error>)
        ensures
            r is Ok <==> regex_compiles(source@),
            r matches Ok(p) ==> p.text() == source@,
    {
        compile_text_pattern(source)
    }

    /// Whether the pattern matches somewhere in `haystack`.
    pub fn is_match(&self, haystack: &str) -> (r: bool)
        ensures
            r == regex_matches(self.text(), haystack@),
    {
        search_text_pattern(self, haystack)
    }

    pub fn as_str(&self) -> (r: &str)
        ensures
            r@ == self.text(),
    {
        self.source.as_str()
    }
}

} // verus!
