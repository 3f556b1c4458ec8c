//! Computing the version that follows the current one.

use vstd::prelude::*;
use vstd::string::*;
use crate::decimal::{decimal_digits, to_decimal};
use crate::resolve::{version_lt, version_of};

verus! {

/// Which component of a version a bump raises.
#[derive(Clone, Copy, Debug, PartialEq, Eq, Structural)]
pub enum Level {
    Major,
    Minor,
    Patch,
}

/// The level that a name stands for: `major`, `minor` or `patch`, in lower
/// case and nothing else.
pub open spec fn level_of(name: Seq<char>) -> Option<Level> {
    if name == "major"@ {
        Some(Level::Major)
    } else if name == "minor"@ {
        Some(Level::Minor)
    } else if name == "patch"@ {
        Some(Level::Patch)
    } else {
        None
    }
}

/// The next version: the chosen component goes up by one and every component
/// after it goes back to zero.
pub open spec fn bumped(level: Level, v: (nat, nat, nat)) -> (nat, nat, nat) {
    match level {
        Level::Major => (v.0 + 1, 0, 0),
        Level::Minor => (v.0, v.1 + 1, 0),
        Level::Patch => (v.0, v.1, v.2 + 1),
    }
}

/// The component that the bump raises is not yet the largest `usize`.
pub open spec fn can_bump(level: Level, v: (usize, usize, usize)) -> bool {
    match level {
        Level::Major => v.0 < usize::MAX,
        Level::Minor => v.1 < usize::MAX,
        Level::Patch => v.2 < usize::MAX,
    }
}

/// A version written as `major.minor.patch` in decimal.
pub open spec fn version_text(v: (nat, nat, nat)) -> Seq<char> {
    decimal_digits(v.0) + seq!['.'] + decimal_digits(v.1) + seq!['.'] + decimal_digits(v.2)
}

/// A bump always leads to a strictly higher version.
pub proof fn lemma_bump_is_higher(level: Level, v: (nat, nat, nat))
    ensures
        version_lt(v, bumped(level, v)),
{
}

/// Whether two texts hold the same characters.
pub fn same_text(a: &str, b: &str) -> (r: bool)
    ensures
        r == (a@ == b@),
{
    let n: usize = a.unicode_len();
    if n != b.unicode_len() {
        return false;
    }
    let mut i: usize = 0;
    while i < n
        invariant
            n == a@.len(),
            n == b@.len(),
            i <= n,
            forall|j: int| 0 <= j < i ==> a@[j] == b@[j],
        decreases n - i,
    {
        if a.get_char(i) != b.get_char(i) {
            return false;
        }
        i += 1;
    }
    assert(a@ =~= b@);
    true
}

/// Reads the name of a bump level.
pub fn parse_level(name: &str) -> (r: Option<Level>)
    ensures
        r == level_of(name@),
{
    if same_text(name, "major") {
        Some(Level::Major)
    } else if same_text(name, "minor") {
        Some(Level::Minor)
    } else if same_text(name, "patch") {
        Some(Level::Patch)
    } else {
        None
    }
}

/// The version that follows `major.minor.patch` at the given level.
pub fn next_version(level: Level, major: usize, minor: usize, patch: usize) -> (r: (
    usize,
    usize,
    usize,
))
    requires
        can_bump(level, (major, minor, patch)),
    ensures
        version_of(r) == bumped(level, version_of((major, minor, patch))),
{
    match level {
        Level::Major => (major + 1, 0, 0),
        Level::Minor => (major, minor + 1, 0),
        Level::Patch => (major, minor, patch + 1),
    }
}

/// Writes a version as `major.minor.patch`.
pub fn format_version(major: usize, minor: usize, patch: usize) -> (r: String)
    ensures
        r@ == version_text(version_of((major, minor, patch))),
{
    proof {
        reveal_strlit(".");
    }
    let mut text = to_decimal(major);
    text.append(".");
    text.append(to_decimal(minor).as_str());
    text.append(".");
    text.append(to_decimal(patch).as_str());
    assert(text@ =~= version_text(version_of((major, minor, patch))));
    text
}

/// The text of the version that follows `major.minor.patch` at the level
/// named by `version`. A name that is no level gives the empty text.
pub fn bump(version: &str, major: usize, minor: usize, patch: usize) -> (r: String)
    requires
        level_of(version@) matches Some(level) ==> can_bump(level, (major, minor, patch)),
    ensures
        r@ == match level_of(version@) {
            Some(level) => version_text(bumped(level, version_of((major, minor, patch)))),
            None => Seq::<char>::empty(),
        },
{
    match parse_level(version) {
        Some(level) => {
            let (x, y, z) = next_version(level, major, minor, patch);
            format_version(x, y, z)
        },
        None => String::new(),
    }
}

/// As `bump`, for every input: `None` where the component to raise is
/// already the largest `usize`.
pub fn try_bump(version: &str, major: usize, minor: usize, patch: usize) -> (r: Option<String>)
    ensures
        r is Some <==> (level_of(version@) matches Some(level) ==> can_bump(
            level,
            (major, minor, patch),
        )),
        r is Some ==> r.unwrap()@ == match level_of(version@) {
            Some(level) => version_text(bumped(level, version_of((major, minor, patch)))),
            None => Seq::<char>::empty(),
        },
{
    let raised = match parse_level(version) {
        Some(Level::Major) => major,
        Some(Level::Minor) => minor,
        Some(Level::Patch) => patch,
        None => 0,
    };
    if raised == usize::MAX {
        None
    } else {
        Some(bump(version, major, minor, patch))
    }
}

} // verus!
