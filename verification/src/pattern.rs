//! Pattern compilation: turns a rule's textual pattern into an executable
//! matcher, backed by the `regex` crate.
//!
//! Compilation, matching and replacement are all deterministic functions of
//! the pattern text and the haystack, so their results are modelled by the
//! uninterpreted spec functions `pattern_ok`, `pattern_matches` and
//! `replaced_of`, and a `CompiledPattern` is abstracted by its source text.

use vstd::prelude::*;

verus! {

/// The rule's pattern text does not compile as a regular expression.
#[derive(Clone, Copy, Debug, PartialEq, Eq)]
pub struct PatternError;

/// Whether the `regex` crate accepts a pattern text.
pub uninterp spec fn pattern_ok(pattern: Seq<char>) -> bool;

/// Whether a pattern matches anywhere in a haystack.
pub uninterp spec fn pattern_matches(pattern: Seq<char>, haystack: Seq<char>) -> bool;

/// The haystack with the first match of the pattern replaced by the
/// destination template, capture-group references expanded.
pub uninterp spec fn replaced_of(
    pattern: Seq<char>,
    haystack: Seq<char>,
    template: Seq<char>,
) -> Seq<char>;

#[verifier::external_type_specification]
#[verifier::external_body]
pub struct ExRegex(regex::Regex);

/// A compiled pattern, abstracted by the text it was compiled from.
pub struct CompiledPattern {
    regex: regex::Regex,
    source: String,
}

impl View for CompiledPattern {
    type V = Seq<char>;

    closed spec fn view(&self) -> Seq<char> {
        self.source@
    }
}

impl CompiledPattern {
    /// Relies on `regex::Regex::new`: it returns `Ok` exactly when the
    /// pattern text is valid regular-expression syntax, and which texts are
    /// valid depends on the text alone.
    #[verifier::external_body]
    pub fn compile(pattern: &str) -> (r: Result<CompiledPattern, PatternError>)
        ensures
            r matches Ok(c) ==> c@ == pattern@,
            r is Ok <==> pattern_ok(pattern@),
    {
        match regex::Regex::new(pattern) {
            Ok(regex) => Ok(CompiledPattern { regex, source: pattern.to_owned() }),
            Err(_) => Err(PatternError),
        }
    }

    /// Relies on `regex::Regex::is_match`: the result depends only on the
    /// pattern text and the haystack.
    #[verifier::external_body]
    pub fn is_match(&self, haystack: &str) -> (r: bool)
        ensures
            r == pattern_matches(self@, haystack@),
    {
        self.regex.is_match(haystack)
    }

    /// Relies on `regex::Regex::replace`: it rewrites the leftmost-first
    /// match using the template, expanding `$n` references (group 0 is the
    /// whole match, unmatched groups become the empty string), it returns
    /// the haystack unchanged when nothing matches, and the result depends
    /// only on the pattern text, the haystack and the template.
    #[verifier::external_body]
    pub fn replace_first(&self, haystack: &str, template: &str) -> (r: String)
        ensures
            r@ == replaced_of(self@, haystack@, template@),
            !pattern_matches(self@, haystack@) ==> r@ == haystack@,
    {
        self.regex.replace(haystack, template).into_owned()
    }

    /// The text this pattern was compiled from.
    pub fn source(&self) -> (r: &str)
        ensures
            r@ == self@,
    {
        self.source.as_str()
    }
}

/// Law: compiling a pattern is idempotent. Two matchers compiled from the
/// same text agree on every haystack, both for matching and for replacement,
/// because a compiled pattern's behaviour is a function of its source text
/// alone.
pub proof fn lemma_compile_idempotent(first: CompiledPattern, second: CompiledPattern)
    requires
        first@ == second@,
    ensures
        forall|haystack: Seq<char>|
            pattern_matches(first@, haystack) == pattern_matches(second@, haystack),
        forall|haystack: Seq<char>, template: Seq<char>|
            replaced_of(first@, haystack, template) == replaced_of(second@, haystack, template),
{
}

} // verus!
