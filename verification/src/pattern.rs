//! Regular expressions compiled with the `regex` crate, kept together with
//! the pattern they were compiled from.

use vstd::prelude::*;
use vstd::string::StringExecFns;

verus! {

#[verifier::external_type_specification]
#[verifier::external_body]
pub struct ExRegex(regex::Regex);

#[verifier::external_type_specification]
#[verifier::external_body]
pub struct ExRegexError(regex::Error);

/// Whether `regex::Regex::new` compiles `pattern` (it refuses invalid syntax
/// and programs beyond its default size limit).
pub uninterp spec fn regex_compiles(pattern: Seq<char>) -> bool;

/// Whether `regex::Regex::is_match`, for the expression compiled from
/// `pattern`, finds a match somewhere in `text`.
pub uninterp spec fn regex_finds(pattern: Seq<char>, text: Seq<char>) -> bool;

/// Calls `regex::Regex::new`. Trusted: it succeeds exactly on the patterns
/// that `regex_compiles` names, which depends on the pattern alone.
#[verifier::external_body]
fn compile_regex(pattern: &str) -> (r: Result<regex::Regex, regex::Error>)
    ensures
        r is Ok <==> regex_compiles(pattern@),
{
    regex::Regex::new(pattern)
}

/// Renders a `regex::Error` through its `Display` implementation. Nothing is
/// claimed of the text.
#[verifier::external_body]
fn regex_error_text(e: &regex::Error) -> (s: String) {
    e.to_string()
}

/// A regular expression together with the pattern it was compiled from.
/// Only `CompiledPattern::new` builds one, so the expression is always the
/// one compiled from `source`.
pub struct CompiledPattern {
    source: String,
    regex: regex::Regex,
}

impl View for CompiledPattern {
    type V = Seq<char>;

    closed spec fn view(&self) -> Seq<char> {
        self.source@
    }
}

impl CompiledPattern {
    /// Compiles `pattern`; when it does not compile, the regex crate's
    /// message is returned.
    pub fn new(pattern: &str) -> (r: Result<CompiledPattern, String>)
        ensures
            r is Ok <==> regex_compiles(pattern@),
            r matches Ok(p) ==> p@ == pattern@,
    {
        match compile_regex(pattern) {
            Ok(regex) => Ok(CompiledPattern { source: String::from_str(pattern), regex }),
            Err(e) => Err(regex_error_text(&e)),
        }
    }
}

/// Calls `regex::Regex::is_match` on the expression compiled from `p@`.
/// Trusted: the answer is the one `regex_finds` names for that pattern and
/// `text`.
#[verifier::external_body]
pub(crate) fn pattern_finds(p: &CompiledPattern, text: &str) -> (r: bool)
    ensures
        r == regex_finds(p@, text@),
{
    p.regex.is_match(text)
}

} // verus!
