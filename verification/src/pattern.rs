use vstd::prelude::*;

verus! {

#[verifier::external_type_specification]
#[verifier::external_body]
pub struct ExRegex(regex::Regex);

/// Whether the `regex` crate accepts a pattern.
pub uninterp spec fn regex_compiles(pattern: Seq<char>) -> bool;

/// What the `regex` crate gives when it replaces the leftmost-first match of
/// a pattern in a text, with `$name` references in the replacement expanded
/// from the match.
pub uninterp spec fn regex_replacement(pattern: Seq<char>, haystack: Seq<char>, replacement: Seq<char>) -> Seq<char>;

/// Compiles a regular expression.
///
/// Trusted: calls `regex::Regex::new`, which succeeds exactly on the
/// patterns the crate accepts (`regex_compiles`, a function of the pattern
/// alone).
#[verifier::external_body]
fn compile_regex(pattern: &str) -> (r: Option<regex::Regex>)
    ensures
        r is Some <==> regex_compiles(pattern@),
{
    regex::Regex::new(pattern).ok()
}

/// A compiled regular expression together with its source text.
pub struct Pattern {
    source: String,
    compiled: regex::Regex,
}

impl View for Pattern {
    type V = Seq<char>;

    closed spec fn view(&self) -> Seq<char> {
        self.source@
    }
}

impl Pattern {
    /// Compiles `source`; `None` when the `regex` crate refuses it.
    pub fn new(source: &str) -> (r: Option<Pattern>)
        ensures
            r is Some <==> regex_compiles(source@),
            r matches Some(p) ==> p@ == source@,
    {
        match compile_regex(source) {
            Some(compiled) => Some(Pattern { source: source.to_owned(), compiled }),
            None => None,
        }
    }

    /// The text with the leftmost-first match of the pattern replaced.
    ///
    /// Trusted: calls `regex::Regex::replace` with the replacement as a
    /// `&str`, so `$name` references in it are expanded. The regex was
    /// compiled from the pattern's source by `Pattern::new`, the only way to
    /// make a `Pattern`, so the result is a function of the source, the text
    /// and the replacement (`regex_replacement`).
    #[verifier::external_body]
    pub(crate) fn replace_first(&self, haystack: &str, replacement: &str) -> (r: String)
        ensures
            r@ == regex_replacement(self@, haystack@, replacement@),
    {
        self.compiled.replace(haystack, replacement).into_owned()
    }
}

} // verus!
