//! Glob patterns, in which `*` does not cross `/`, matched by `globset`.

use vstd::prelude::*;

use crate::text::opt_string_view;

verus! {

/// The message of the error `globset` gives for a pattern it cannot parse
/// (with `*` kept from crossing `/`) or whose matcher it cannot build;
/// `None` for a valid pattern.
pub uninterp spec fn glob_error(pattern: Seq<char>) -> Option<Seq<char>>;

/// Whether a valid pattern (with `*` kept from crossing `/`) matches a path.
pub uninterp spec fn glob_matches(pattern: Seq<char>, path: Seq<char>) -> bool;

/// A pattern short enough for `globset`'s literal matchers, whose
/// `aho-corasick` automaton is refused (by a panic) only past its 32-bit
/// state limit.
pub open spec fn glob_sized(pattern: Seq<char>) -> bool {
    pattern.len() < 0x1000_0000
}

/// Every pattern of `patterns` is short enough.
pub open spec fn all_sized(patterns: Seq<String>) -> bool {
    forall|i: int| 0 <= i < patterns.len() ==> glob_sized((#[trigger] patterns[i])@)
}

/// Parse a pattern and build its matcher:
/// `GlobBuilder::new(pattern).literal_separator(true).build()`, then
/// `GlobSetBuilder::new().add(glob).build()`, which compiles the regex and
/// reports one over `globset`'s size limit; the error's text. The contract
/// names the outcome: `globset`'s syntax is not restated.
#[verifier::external_body]
pub(crate) fn check_glob(pattern: &str) -> (r: Option<String>)
    requires
        glob_sized(pattern@),
    ensures
        opt_string_view(r) == glob_error(pattern@),
{
    let glob = match globset::GlobBuilder::new(pattern).literal_separator(true).build() {
        Ok(glob) => glob,
        Err(e) => return Some(e.to_string()),
    };
    match globset::GlobSetBuilder::new().add(glob).build() {
        Ok(_) => None,
        Err(e) => Some(e.to_string()),
    }
}

/// Match a path against a valid pattern: the pattern and its matcher built
/// as in [`check_glob`], then `GlobSet::is_match(path)`. The contract names
/// the outcome.
#[verifier::external_body]
pub(crate) fn glob_match(pattern: &str, path: &str) -> (r: bool)
    requires
        glob_sized(pattern@),
        glob_error(pattern@) is None,
    ensures
        r == glob_matches(pattern@, path@),
{
    let glob = match globset::GlobBuilder::new(pattern).literal_separator(true).build() {
        Ok(glob) => glob,
        Err(_) => return false,
    };
    match globset::GlobSetBuilder::new().add(glob).build() {
        Ok(set) => set.is_match(path),
        Err(_) => false,
    }
}

/// Every pattern of `patterns` is valid.
pub open spec fn all_valid(patterns: Seq<String>) -> bool {
    forall|i: int| 0 <= i < patterns.len() ==> glob_error((#[trigger] patterns[i])@) is None
}

/// Some pattern of `patterns` matches `path`.
pub open spec fn any_matches(patterns: Seq<String>, path: Seq<char>) -> bool {
    exists|i: int| 0 <= i < patterns.len() && glob_matches((#[trigger] patterns[i])@, path)
}

/// The first pattern of `patterns` that does not parse, with its error.
pub open spec fn first_invalid(patterns: Seq<String>, from: int) -> Option<(int, Seq<char>)>
    decreases patterns.len() - from,
{
    if from < 0 || from >= patterns.len() {
        None
    } else if glob_error(patterns[from]@) is Some {
        Some((from, glob_error(patterns[from]@)->0))
    } else {
        first_invalid(patterns, from + 1)
    }
}

/// The first invalid pattern and its error, if any.
pub fn find_invalid(patterns: &[String]) -> (r: Option<(usize, String)>)
    requires
        all_sized(patterns@),
    ensures
        match (r, first_invalid(patterns@, 0)) {
            (Some((i, m)), Some((j, n))) => i == j && m@ == n && i < patterns@.len(),
            (None, None) => all_valid(patterns@),
            _ => false,
        },
{
    let mut i: usize = 0;
    while i < patterns.len()
        invariant
            i <= patterns@.len(),
            first_invalid(patterns@, i as int) == first_invalid(patterns@, 0),
            forall|j: int| 0 <= j < i ==> glob_error((#[trigger] patterns@[j])@) is None,
            all_sized(patterns@),
        decreases patterns.len() - i,
    {
        match check_glob(patterns[i].as_str()) {
            Some(message) => return Some((i, message)),
            None => {},
        }
        i = i + 1;
    }
    None
}

/// Whether some valid pattern of `patterns` matches `path`.
pub fn any_glob_matches(patterns: &[String], path: &str) -> (r: bool)
    requires
        all_valid(patterns@),
        all_sized(patterns@),
    ensures
        r == any_matches(patterns@, path@),
{
    let mut i: usize = 0;
    while i < patterns.len()
        invariant
            i <= patterns@.len(),
            all_valid(patterns@),
            all_sized(patterns@),
            forall|j: int| 0 <= j < i ==> !glob_matches((#[trigger] patterns@[j])@, path@),
        decreases patterns.len() - i,
    {
        assert(glob_error(patterns@[i as int]@) is None);
        if glob_match(patterns[i].as_str(), path) {
            assert(glob_matches(patterns@[i as int]@, path@));
            return true;
        }
        i = i + 1;
    }
    false
}

} // verus!
