//! The glob-matching boundary of the file filter. Matching itself is done
//! by the `glob-match` crate; its result is given a name here and every
//! contract above this point speaks of that name.

use vstd::prelude::*;

verus! {

/// Whether `path` matches the glob `pattern` (`*`, `?`, `**`, character
/// classes and brace alternation), exactly as the `glob-match` crate
/// decides it. The relation is a function of the two strings alone.
pub uninterp spec fn glob_matches(pattern: Seq<char>, path: Seq<char>) -> bool;

/// Relies on glob_match::glob_match: pattern matching over the two
/// argument strings, with no other input.
#[verifier::external_body]
pub(crate) fn glob_match_exec(pattern: &str, path: &str) -> (r: bool)
    ensures
        r == glob_matches(pattern@, path@),
{
    glob_match::glob_match(pattern, path)
}

} // verus!
