//! The regular-expression engine, regex-lite, as this crate relies on it.
use vstd::prelude::*;

verus! {

#[verifier::external_type_specification]
#[verifier::external_body]
pub struct ExRegex(regex_lite::Regex);

#[verifier::external_type_specification]
#[verifier::external_body]
pub struct ExRegexError(regex_lite::Error);

/// Whether `Regex::new` accepts `pattern`.
pub uninterp spec fn regex_compiles(pattern: Seq<char>) -> bool;

/// Whether a regex built by `Regex::new` from `pattern` finds a match in `haystack`.
pub uninterp spec fn regex_accepts(pattern: Seq<char>, haystack: Seq<char>) -> bool;

/// Relies on `regex_lite::Regex::clone`: a copy of the regex.
pub assume_specification[ <regex_lite::Regex as Clone>::clone ](re: &regex_lite::Regex) -> regex_lite::Regex;

/// Relies on `regex_lite::Regex::new`: with the default configuration it
/// always uses, whether the pattern is accepted depends on the pattern alone.
#[verifier::external_body]
fn compile_regex(pattern: &str) -> (r: Result<regex_lite::Regex, regex_lite::Error>)
    ensures
        r is Ok <==> regex_compiles(pattern@),
{
    regex_lite::Regex::new(pattern)
}

/// A regex built by `Regex::new`, together with the pattern it was built from.
/// Only `CompiledRegex::new` makes one, and `clone` copies one; the fields are
/// private, so `re` is always the regex built from `pattern`, which is what
/// `regex_is_match` relies on.
#[derive(Debug)]
pub struct CompiledRegex {
    re: regex_lite::Regex,
    pattern: String,
}

/// Relies on `regex_lite::Regex::is_match`: for a regex built by `Regex::new`
/// from a pattern (as every `CompiledRegex` is), whether it matches somewhere
/// in `haystack` depends on that pattern and the haystack alone.
#[verifier::external_body]
fn regex_is_match(re: &CompiledRegex, haystack: &str) -> (r: bool)
    ensures
        r == regex_accepts(re.pattern(), haystack@),
{
    re.re.is_match(haystack)
}

impl Clone for CompiledRegex {
    fn clone(&self) -> (r: Self)
        ensures
            r.pattern() == self.pattern(),
    {
        CompiledRegex { re: self.re.clone(), pattern: self.pattern.clone() }
    }
}

impl CompiledRegex {
    /// The pattern text this regex was built from.
    pub closed spec fn pattern(&self) -> Seq<char> {
        self.pattern@
    }

    /// Builds the regex: it succeeds exactly when the engine accepts `pattern`.
    pub fn new(pattern: &str) -> (r: Result<CompiledRegex, regex_lite::Error>)
        ensures
            r is Ok <==> regex_compiles(pattern@),
            r matches Ok(c) ==> c.pattern() == pattern@,
    {
        match compile_regex(pattern) {
            Ok(re) => Ok(CompiledRegex { re, pattern: pattern.to_owned() }),
            Err(e) => Err(e),
        }
    }

    /// The pattern text this regex was built from.
    pub fn as_str(&self) -> (r: &str)
        ensures
            r@ == self.pattern(),
    {
        self.pattern.as_str()
    }

    /// The underlying regex.
    pub fn as_regex(&self) -> &regex_lite::Regex {
        &self.re
    }

    /// Whether the regex finds a match anywhere in `haystack`.
    pub fn is_match(&self, haystack: &str) -> (r: bool)
        ensures
            r == regex_accepts(self.pattern(), haystack@),
    {
        regex_is_match(self, haystack)
    }
}

} // verus!
