//! Include/ignore filters: a compiled regular expression paired with the
//! pattern text it was compiled from. The `regex` crate does the matching;
//! its behaviour is named, not spelled out.

use vstd::prelude::*;

verus! {

#[verifier::external_type_specification]
#[verifier::external_body]
pub struct ExRegex(regex::Regex);

/// Whether `pattern` is a valid regular expression: exactly the patterns
/// that `regex::Regex::new` accepts, a function of the pattern text alone.
pub uninterp spec fn regex_valid(pattern: Seq<char>) -> bool;

/// Whether the regular expression `pattern` matches somewhere in `text`,
/// as `regex::Regex::is_match` decides it: a function of the pattern text
/// and the searched text alone.
pub uninterp spec fn regex_accepts(pattern: Seq<char>, text: Seq<char>) -> bool;

/// A compiled filter. The private fields keep the invariant that `regex`
/// was compiled from `source`; only `compile` constructs a value.
pub struct CompiledPattern {
    regex: regex::Regex,
    source: String,
}

impl CompiledPattern {
    /// The pattern text this filter was compiled from.
    pub closed spec fn pattern(&self) -> Seq<char> {
        self.source@
    }

    /// Relies on `regex::Regex::new`: it returns `Ok` exactly on valid
    /// patterns, deterministically in the pattern text.
    #[verifier::external_body]
    pub fn compile(pattern: &str) -> (r: Option<CompiledPattern>)
        ensures
            r is Some <==> regex_valid(pattern@),
            r matches Some(p) ==> p.pattern() == pattern@,
    {
        match regex::Regex::new(pattern) {
            Ok(re) => Some(CompiledPattern { regex: re, source: pattern.to_owned() }),
            Err(_) => None,
        }
    }

    /// Relies on `regex::Regex::is_match`: whether the expression matches
    /// somewhere in `text`, deterministically in pattern and text.
    #[verifier::external_body]
    pub fn is_match(&self, text: &str) -> (r: bool)
        ensures
            r == regex_accepts(self.pattern(), text@),
    {
        self.regex.is_match(text)
    }
}

} // verus!
