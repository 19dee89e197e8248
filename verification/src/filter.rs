//! Inclusion/exclusion path filtering.
//!
//! A traversal candidate is selected when it matches the inclusion pattern (if
//! one was given) and does not match the exclusion pattern (if one was given).
//! The patterns are regular expressions compiled by the regex crate; a
//! compiled pattern keeps the text it was compiled from, so contracts can
//! speak of matching as a function of pattern text and candidate path.

use vstd::prelude::*;
use crate::errors::SyncError;

verus! {

#[verifier::external_type_specification]
#[verifier::external_body]
pub struct ExRegex(regex::Regex);

/// Whether the regular expression written `pattern` matches anywhere in
/// `text`. Matching is a function of the two strings alone.
pub uninterp spec fn regex_matches(pattern: Seq<char>, text: Seq<char>) -> bool;

/// A compiled regular expression together with the pattern text it was
/// compiled from.
pub struct CompiledPattern {
    pattern: String,
    re: regex::Regex,
}

impl CompiledPattern {
    /// The text this pattern was compiled from.
    pub closed spec fn pattern_spec(&self) -> Seq<char> {
        self.pattern@
    }

    /// Relies on regex::Regex::new: compiles the pattern text, failing
    /// exactly on syntactically invalid or over-large patterns.
    #[verifier::external_body]
    pub fn compile(pattern: &str) -> (r: Result<CompiledPattern, SyncError>)
        ensures
            match r {
                Ok(cp) => cp.pattern_spec() == pattern@,
                Err(e) => e matches SyncError::Other(_),
            },
    {
        match regex::Regex::new(pattern) {
            Ok(re) => Ok(CompiledPattern { pattern: pattern.to_owned(), re }),
            Err(e) => Err(SyncError::Other(format!("invalid pattern: {}", e))),
        }
    }

    /// The text this pattern was compiled from.
    pub fn pattern(&self) -> (r: &String)
        ensures
            r@ == self.pattern_spec(),
    {
        &self.pattern
    }

    /// Relies on regex::Regex::is_match: whether the compiled pattern
    /// matches anywhere in the text, a function of pattern and text alone.
    #[verifier::external_body]
    pub fn is_match(&self, text: &str) -> (r: bool)
        ensures
            r == regex_matches(self.pattern_spec(), text@),
    {
        self.re.is_match(text)
    }
}

/// The pattern text of an optional compiled pattern.
pub open spec fn spec_opt_pattern(p: Option<&CompiledPattern>) -> Option<Seq<char>> {
    match p {
        Some(cp) => Some(cp.pattern_spec()),
        None => None,
    }
}

/// Whether a path passes the inclusion filter (must match when given) and the
/// exclusion filter (must not match when given).
pub open spec fn spec_selected(
    path: Seq<char>,
    inclusion: Option<Seq<char>>,
    exclusion: Option<Seq<char>>,
) -> bool {
    (match inclusion {
        Some(p) => regex_matches(p, path),
        None => true,
    }) && !(match exclusion {
        Some(p) => regex_matches(p, path),
        None => false,
    })
}

/// Decide whether a traversal candidate is selected by the filters.
pub fn selected(
    path: &str,
    inclusion: Option<&CompiledPattern>,
    exclusion: Option<&CompiledPattern>,
) -> (r: bool)
    ensures
        r == spec_selected(path@, spec_opt_pattern(inclusion), spec_opt_pattern(exclusion)),
{
    let inc = match inclusion {
        Some(cp) => cp.is_match(path),
        None => true,
    };
    if !inc {
        return false;
    }
    let exc = match exclusion {
        Some(cp) => cp.is_match(path),
        None => false,
    };
    !exc
}

} // verus!
