//! Regular-expression filters, backed by the `regex` crate.
//!
//! A [`Pattern`] keeps the source text it was compiled from next to the
//! compiled automaton. Only [`Pattern::compile`] builds one, so the two
//! always agree; every claim about matching is stated over the source text.
use vstd::prelude::*;
use regex::Regex;

verus! {

#[verifier::external_type_specification]
#[verifier::external_body]
pub struct ExRegex(regex::Regex);

/// Whether `regex::Regex::new` accepts a pattern (with the crate's default
/// size limits); a function of the pattern alone.
pub uninterp spec fn regex_compiles(pattern: Seq<char>) -> bool;

/// The text (`Display` form) of the `regex::Error` that `regex::Regex::new`
/// gives for a pattern it refuses; a function of the pattern alone.
pub uninterp spec fn regex_error_text(pattern: Seq<char>) -> Seq<char>;

/// Whether the regex compiled from `pattern` matches somewhere in
/// `haystack` (`regex::Regex::is_match`); a function of the two texts alone.
pub uninterp spec fn regex_is_match(pattern: Seq<char>, haystack: Seq<char>) -> bool;

/// A compiled regular expression together with its source text.
pub struct Pattern {
    source: String,
    compiled: Regex,
}

impl Pattern {
    /// The source text the pattern was compiled from.
    pub closed spec fn source(&self) -> Seq<char> {
        self.source@
    }

    /// Calls `regex::Regex::new(source)`: it succeeds exactly when the
    /// pattern compiles (named `regex_compiles`), and the result remembers
    /// its source; a refusal comes back as the error's text (named
    /// `regex_error_text`).
    #[verifier::external_body]
    pub(crate) fn compile(source: &str) -> (r: Result<Pattern, String>)
        ensures
            r is Ok <==> regex_compiles(source@),
            r matches Ok(p) ==> p.source() == source@,
            r matches Err(t) ==> t@ == regex_error_text(source@),
    {
        match Regex::new(source) {
            Ok(compiled) => Ok(Pattern { source: source.to_string(), compiled }),
            Err(e) => Err(e.to_string()),
        }
    }

    /// Calls `regex::Regex::is_match`: its answer is named
    /// `regex_is_match(source, haystack)`; nothing more is claimed.
    #[verifier::external_body]
    pub(crate) fn is_match(&self, haystack: &str) -> (b: bool)
        ensures
            b == regex_is_match(self.source(), haystack@),
    {
        self.compiled.is_match(haystack)
    }

    /// The source text of the pattern.
    pub fn as_str(&self) -> (s: &str)
        ensures
            s@ == self.source(),
    {
        self.source.as_str()
    }
}

} // verus!
