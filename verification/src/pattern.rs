//! The version pattern and the regular-expression engine that searches for it.

use vstd::prelude::*;

verus! {

/// Three dot-separated numbers, each either `0` or a digit run that does not
/// start with `0`. The pattern may match anywhere inside a text.
pub const SEMVER_RX: &'static str =
    r"(?P<major>0|[1-9]\d*)\.(?P<minor>0|[1-9]\d*)\.(?P<patch>0|[1-9]\d*)";

/// What the leftmost match of `pattern` in `haystack` captures: `None` when
/// the pattern matches nowhere, else one entry per capture group in the order
/// of their opening brackets, entry 0 being the whole match. An entry is the
/// matched text, or `None` for a group that took no part in the match.
pub uninterp spec fn regex_captures(pattern: Seq<char>, haystack: Seq<char>) -> Option<
    Seq<Option<Seq<char>>>,
>;

/// Runs `regex::Regex::captures` for a freshly compiled `pattern` on
/// `haystack` and copies out the text of every capture group.
///
/// Trusted: the outcome is a function of the pattern and the haystack alone,
/// named `regex_captures`. Nothing is claimed about which texts match.
/// Compiling any other pattern than the version pattern might fail, so only
/// that one is admitted.
#[verifier::external_body]
pub(crate) fn capture_groups(pattern: &str, haystack: &str) -> (r: Option<Vec<Option<String>>>)
    requires
        pattern@ == SEMVER_RX@,
    ensures
        r.deep_view() == regex_captures(pattern@, haystack@),
{
    let re = regex::Regex::new(pattern).unwrap();
    re.captures(haystack).map(|c| c.iter().map(|m| m.map(|g| g.as_str().to_string())).collect())
}

} // verus!
