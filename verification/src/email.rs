//! The regular expressions of the `regex` crate, as far as the filters use
//! them: compiling a pattern and replacing all of its matches.
use vstd::prelude::*;

verus! {

/// `regex::Regex`, held opaque.
#[verifier::external_type_specification]
#[verifier::external_body]
pub struct ExRegex(regex::Regex);

/// `regex::Error`, held opaque.
#[verifier::external_type_specification]
#[verifier::external_body]
pub struct ExRegexError(regex::Error);

/// Whether `regex::Regex::new` accepts `pattern`.
pub uninterp spec fn regex_compiles(pattern: Seq<char>) -> bool;

/// What `regex::Regex::replace_all` gives for the regex compiled from
/// `pattern`, the text `haystack` and the replacement `replacement`.
pub uninterp spec fn regex_replace_all(
    pattern: Seq<char>,
    haystack: Seq<char>,
    replacement: Seq<char>,
) -> Seq<char>;

/// A compiled regular expression together with the pattern it was
/// compiled from. Only `compile_regex` builds one.
pub struct CompiledRegex {
    regex: regex::Regex,
    source: String,
}

impl CompiledRegex {
    /// The pattern this regex was compiled from.
    pub closed spec fn pattern(&self) -> Seq<char> {
        self.source@
    }
}

/// Compiles `pattern` with `regex::Regex::new`. Trusted: the call succeeds
/// exactly when the pattern is one that `regex` accepts (a fact about the
/// pattern alone), and the result remembers the pattern. Why a pattern
/// fails to compile is not stated.
#[verifier::external_body]
pub(crate) fn compile_regex(pattern: &str) -> (res: Result<CompiledRegex, regex::Error>)
    ensures
        res is Ok <==> regex_compiles(pattern@),
        res matches Ok(c) ==> c.pattern() == pattern@,
{
    match regex::Regex::new(pattern) {
        Ok(regex) => Ok(CompiledRegex { regex, source: pattern.to_string() }),
        Err(e) => Err(e),
    }
}

/// Replaces every non-overlapping match of `re` in `haystack` by
/// `replacement`, with `regex::Regex::replace_all`. Trusted: the result is
/// the named result of that call on the regex's pattern, the text and the
/// replacement; what the matches are is not stated here.
#[verifier::external_body]
pub(crate) fn replace_all(re: &CompiledRegex, haystack: &str, replacement: &str) -> (res: String)
    ensures
        res@ == regex_replace_all(re.pattern(), haystack@, replacement@),
{
    re.regex.replace_all(haystack, replacement).into_owned()
}

}
