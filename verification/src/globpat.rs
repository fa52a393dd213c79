//! Glob pattern compilation and matching, relied on from the `glob` crate.
//!
//! A pattern is kept as its source string; whether it compiles, and which
//! paths it matches, are properties of that string alone.

use vstd::prelude::*;

verus! {

/// Whether `glob::Pattern::new` accepts the pattern string `pat`.
pub uninterp spec fn glob_pattern_ok(pat: Seq<char>) -> bool;

/// Whether the compiled form of `pat` matches the path `path`.
pub uninterp spec fn glob_matches(pat: Seq<char>, path: Seq<char>) -> bool;

/// Relies on `glob::Pattern::new`: whether a pattern string compiles is a
/// property of the string alone.
#[verifier::external_body]
pub(crate) fn glob_pattern_is_ok(pat: &str) -> (r: bool)
    ensures
        r == glob_pattern_ok(pat@),
{
    glob::Pattern::new(pat).is_ok()
}

/// Relies on `glob::Pattern::new` and `glob::Pattern::matches`: whether a
/// path matches a pattern is a property of the two strings alone.
#[verifier::external_body]
pub(crate) fn glob_match(pat: &str, path: &str) -> (r: bool)
    requires
        glob_pattern_ok(pat@),
    ensures
        r == glob_matches(pat@, path@),
{
    glob::Pattern::new(pat).unwrap().matches(path)
}

} // verus!
