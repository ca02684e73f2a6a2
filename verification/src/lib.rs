//! A small library for rule-based bulk renaming: an ordered list of
//! pattern -> destination-template rules is counted (dry run) or executed
//! (batch move with capture-group substitution) against a filesystem port,
//! reporting progress through a logging port.

pub mod application;
pub mod domain;
pub mod pattern;
pub mod report;
pub mod telemetry;

use vstd::prelude::*;
use crate::pattern::{pattern_matches, pattern_ok, CompiledPattern, PatternError};

verus! {

/// A single compiled matching rule: a pattern together with the text that is
/// returned for inputs the pattern matches.
pub struct Rule {
    pattern: CompiledPattern,
    to: String,
}

impl Rule {
    /// The text of the rule's pattern.
    pub closed spec fn pattern_text(&self) -> Seq<char> {
        self.pattern@
    }

    /// The text returned for matching inputs.
    pub closed spec fn to_text(&self) -> Seq<char> {
        self.to@
    }

    /// Compiles `pattern` into a rule; fails exactly when the pattern text is
    /// not valid regular-expression syntax.
    pub fn new(pattern: &str, to: &str) -> (r: Result<Rule, PatternError>)
        ensures
            r matches Ok(rule) ==> rule.pattern_text() == pattern@ && rule.to_text() == to@,
            r is Ok <==> pattern_ok(pattern@),
    {
        match CompiledPattern::compile(pattern) {
            Ok(compiled) => Ok(Rule { pattern: compiled, to: to.to_owned() }),
            Err(e) => Err(e),
        }
    }

    /// Returns the rule's destination text when the pattern matches `input`,
    /// and `None` otherwise.
    pub fn apply(&self, input: &str) -> (r: Option<String>)
        ensures
            r is Some <==> pattern_matches(self.pattern_text(), input@),
            r matches Some(s) ==> s@ == self.to_text(),
    {
        if self.pattern.is_match(input) {
            Some(self.to.clone())
        } else {
            None
        }
    }
}

} // verus!
