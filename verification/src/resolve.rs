//! Finding the highest version among a collection of tag names.

use vstd::prelude::*;
use crate::decimal::{decimal_value, is_number, parse_decimal};
use crate::pattern::{capture_groups, regex_captures, SEMVER_RX};

verus! {

/// A version as three numbers: major, minor, patch.
pub open spec fn version_of(v: (usize, usize, usize)) -> (nat, nat, nat) {
    (v.0 as nat, v.1 as nat, v.2 as nat)
}

/// Every component can be held in a `usize`.
pub open spec fn fits(v: (nat, nat, nat)) -> bool {
    v.0 <= usize::MAX && v.1 <= usize::MAX && v.2 <= usize::MAX
}

/// Strict precedence: by major, then by minor, then by patch.
pub open spec fn version_lt(a: (nat, nat, nat), b: (nat, nat, nat)) -> bool {
    a.0 < b.0 || (a.0 == b.0 && a.1 < b.1) || (a.0 == b.0 && a.1 == b.1 && a.2 < b.2)
}

/// Precedence or equality.
pub open spec fn version_le(a: (nat, nat, nat), b: (nat, nat, nat)) -> bool {
    a == b || version_lt(a, b)
}

/// The version that the capture groups of one match spell out: groups 1, 2
/// and 3 of exactly four, each a non-empty run of ASCII digits.
pub open spec fn groups_version(groups: Seq<Option<Seq<char>>>) -> Option<(nat, nat, nat)> {
    if groups.len() == 4 && groups[1] is Some && groups[2] is Some && groups[3] is Some
        && is_number(groups[1].unwrap()) && is_number(groups[2].unwrap()) && is_number(
        groups[3].unwrap(),
    ) {
        Some(
            (
                decimal_value(groups[1].unwrap()),
                decimal_value(groups[2].unwrap()),
                decimal_value(groups[3].unwrap()),
            ),
        )
    } else {
        None
    }
}

/// The version that a tag carries: the one spelled by the first occurrence of
/// the version pattern in it, if there is an occurrence.
pub open spec fn tag_version(tag: Seq<char>) -> Option<(nat, nat, nat)> {
    match regex_captures(SEMVER_RX@, tag) {
        Some(groups) => groups_version(groups),
        None => None,
    }
}

/// Either the pattern occurs nowhere in the tag, or the occurrence spells a
/// version whose components fit in `usize`.
pub open spec fn tag_readable(tag: Seq<char>) -> bool {
    match regex_captures(SEMVER_RX@, tag) {
        Some(groups) => groups_version(groups) is Some && fits(groups_version(groups).unwrap()),
        None => true,
    }
}

/// The running maximum after one more tag.
pub open spec fn greater_of(best: (nat, nat, nat), tag: Seq<char>) -> (nat, nat, nat) {
    match tag_version(tag) {
        Some(v) => if version_lt(best, v) {
            v
        } else {
            best
        },
        None => best,
    }
}

/// The running maximum over all tags, starting from `0.0.0`.
pub open spec fn max_version(tags: Seq<Seq<char>>) -> (nat, nat, nat)
    decreases tags.len(),
{
    if tags.len() == 0 {
        (0, 0, 0)
    } else {
        greater_of(max_version(tags.drop_last()), tags.last())
    }
}

/// `v` is the highest version among the tags: no tag carries a higher one,
/// and `v` is carried by some tag unless it is `0.0.0`.
pub open spec fn is_highest(tags: Seq<Seq<char>>, v: (nat, nat, nat)) -> bool {
    &&& forall|i: int|
        0 <= i < tags.len() && (#[trigger] tag_version(tags[i])) is Some ==> version_le(
            tag_version(tags[i]).unwrap(),
            v,
        )
    &&& (v == (0nat, 0nat, 0nat) || exists|i: int|
        0 <= i < tags.len() && #[trigger] tag_version(tags[i]) == Some(v))
}

/// What reading one tag can give.
#[derive(Clone, Copy, Debug, PartialEq, Eq, Structural)]
pub enum TagReading {
    /// The version pattern occurs nowhere in the tag.
    NoVersion,
    /// The first occurrence of the pattern spells this version.
    Version(usize, usize, usize),
    /// The pattern occurs, but a component is no ASCII digit run or does not
    /// fit in `usize`.
    Unreadable,
}

/// Turns the capture groups of one match into a version. Succeeds exactly
/// when the groups spell a version and each component fits in `usize`.
pub fn read_groups(groups: &Vec<Option<String>>) -> (r: Option<(usize, usize, usize)>)
    ensures
        r is Some <==> groups_version(groups.deep_view()) is Some && fits(
            groups_version(groups.deep_view()).unwrap(),
        ),
        r is Some ==> version_of(r.unwrap()) == groups_version(groups.deep_view()).unwrap(),
{
    if groups.len() != 4 {
        return None;
    }
    proof {
        let g = groups.deep_view();
        assert(g[1] == groups@[1].deep_view());
        assert(g[2] == groups@[2].deep_view());
        assert(g[3] == groups@[3].deep_view());
    }
    match (&groups[1], &groups[2], &groups[3]) {
        (Some(a), Some(b), Some(c)) => {
            match (
                parse_decimal(a.as_str()),
                parse_decimal(b.as_str()),
                parse_decimal(c.as_str()),
            ) {
                (Some(x), Some(y), Some(z)) => Some((x, y, z)),
                _ => None,
            }
        },
        _ => None,
    }
}

/// Searches a tag for the version pattern and reads the first occurrence.
pub fn read_tag(tag: &str) -> (r: TagReading)
    ensures
        r is NoVersion <==> regex_captures(SEMVER_RX@, tag@) is None,
        r is Unreadable <==> !tag_readable(tag@),
        r matches TagReading::Version(x, y, z) ==> tag_version(tag@) == Some(
            version_of((x, y, z)),
        ),
{
    match capture_groups(SEMVER_RX, tag) {
        None => TagReading::NoVersion,
        Some(groups) => match read_groups(&groups) {
            Some((x, y, z)) => TagReading::Version(x, y, z),
            None => TagReading::Unreadable,
        },
    }
}

/// The highest version among the tags, `0.0.0` when no tag carries one.
/// Every tag in which the pattern occurs must be readable.
pub fn semver(tags: &Vec<String>) -> (r: (usize, usize, usize))
    requires
        forall|i: int| 0 <= i < tags@.len() ==> tag_readable(#[trigger] tags@[i]@),
    ensures
        version_of(r) == max_version(tags.deep_view()),
        is_highest(tags.deep_view(), version_of(r)),
{
    let mut major: usize = 0;
    let mut minor: usize = 0;
    let mut patch: usize = 0;
    let mut i: usize = 0;
    while i < tags.len()
        invariant
            i <= tags@.len(),
            forall|j: int| 0 <= j < tags@.len() ==> tag_readable(#[trigger] tags@[j]@),
            version_of((major, minor, patch)) == max_version(
                tags.deep_view().subrange(0, i as int),
            ),
        decreases tags@.len() - i,
    {
        proof {
            let p = tags.deep_view().subrange(0, i + 1);
            assert(p.drop_last() =~= tags.deep_view().subrange(0, i as int));
            assert(p.last() == tags@[i as int]@);
            assert(tag_readable(tags@[i as int]@));
        }
        match read_tag(tags[i].as_str()) {
            TagReading::Version(x, y, z) => {
                if x > major {
                    major = x;
                    minor = y;
                    patch = z;
                } else if x == major && y > minor {
                    minor = y;
                    patch = z;
                } else if x == major && y == minor && z > patch {
                    patch = z;
                }
            },
            _ => {},
        }
        i += 1;
    }
    proof {
        assert(tags.deep_view().subrange(0, i as int) =~= tags.deep_view());
        lemma_max_is_highest(tags.deep_view());
    }
    (major, minor, patch)
}

/// The highest version among the tags, or `None` when some tag holds an
/// occurrence of the pattern that cannot be read.
pub fn try_semver(tags: &Vec<String>) -> (r: Option<(usize, usize, usize)>)
    ensures
        r is Some <==> forall|i: int| 0 <= i < tags@.len() ==> tag_readable(#[trigger] tags@[i]@),
        r is Some ==> version_of(r.unwrap()) == max_version(tags.deep_view()) && is_highest(
            tags.deep_view(),
            version_of(r.unwrap()),
        ),
{
    let mut i: usize = 0;
    while i < tags.len()
        invariant
            i <= tags@.len(),
            forall|j: int| 0 <= j < i ==> tag_readable(#[trigger] tags@[j]@),
        decreases tags@.len() - i,
    {
        match read_tag(tags[i].as_str()) {
            TagReading::Unreadable => {
                return None;
            },
            _ => {},
        }
        i += 1;
    }
    Some(semver(tags))
}

/// The running maximum is the highest version among the tags.
pub proof fn lemma_max_is_highest(tags: Seq<Seq<char>>)
    ensures
        is_highest(tags, max_version(tags)),
    decreases tags.len(),
{
    if tags.len() > 0 {
        let front = tags.drop_last();
        let m = max_version(front);
        let r = max_version(tags);
        lemma_max_is_highest(front);
        assert(version_le(m, r));
        assert forall|i: int|
            0 <= i < tags.len() && (#[trigger] tag_version(tags[i])) is Some implies version_le(
            tag_version(tags[i]).unwrap(),
            r,
        ) by {
            if i < front.len() {
                assert(tags[i] == front[i]);
                assert(version_le(tag_version(front[i]).unwrap(), m));
            }
        }
        if r != (0nat, 0nat, 0nat) {
            if r == m {
                let k = choose|k: int|
                    0 <= k < front.len() && #[trigger] tag_version(front[k]) == Some(m);
                assert(tags[k] == front[k]);
                assert(tag_version(tags[k]) == Some(r));
            } else {
                let k = tags.len() - 1;
                assert(tag_version(tags[k]) == Some(r));
            }
        }
    }
}

/// A collection of tags has only one highest version.
pub proof fn lemma_highest_unique(tags: Seq<Seq<char>>, v: (nat, nat, nat), w: (nat, nat, nat))
    requires
        is_highest(tags, v),
        is_highest(tags, w),
    ensures
        v == w,
{
    if v != (0nat, 0nat, 0nat) {
        let k = choose|k: int| 0 <= k < tags.len() && #[trigger] tag_version(tags[k]) == Some(v);
        assert(version_le(tag_version(tags[k]).unwrap(), w));
    }
    if w != (0nat, 0nat, 0nat) {
        let k = choose|k: int| 0 <= k < tags.len() && #[trigger] tag_version(tags[k]) == Some(w);
        assert(version_le(tag_version(tags[k]).unwrap(), v));
    }
}

/// The highest version depends only on which tags there are: two
/// collections that hold the same tags, in any order and any number of
/// times, have the same highest version.
pub proof fn lemma_order_irrelevant(a: Seq<Seq<char>>, b: Seq<Seq<char>>)
    requires
        forall|tag: Seq<char>| a.contains(tag) <==> b.contains(tag),
    ensures
        max_version(a) == max_version(b),
{
    let m = max_version(a);
    lemma_max_is_highest(a);
    lemma_max_is_highest(b);
    assert forall|i: int|
        0 <= i < b.len() && (#[trigger] tag_version(b[i])) is Some implies version_le(
        tag_version(b[i]).unwrap(),
        m,
    ) by {
        assert(b.contains(b[i]));
        assert(a.contains(b[i]));
        let k = choose|k: int| 0 <= k < a.len() && a[k] == b[i];
        assert(version_le(tag_version(a[k]).unwrap(), m));
    }
    if m != (0nat, 0nat, 0nat) {
        let k = choose|k: int| 0 <= k < a.len() && #[trigger] tag_version(a[k]) == Some(m);
        assert(a.contains(a[k]));
        assert(b.contains(a[k]));
        let j = choose|j: int| 0 <= j < b.len() && b[j] == a[k];
        assert(tag_version(b[j]) == Some(m));
    }
    assert(is_highest(b, m));
    lemma_highest_unique(b, m, max_version(b));
}

/// A tag that carries no version does not affect the highest version:
/// taking it out of the collection changes nothing.
pub proof fn lemma_unmatched_ignored(tags: Seq<Seq<char>>, i: int)
    requires
        0 <= i < tags.len(),
        tag_version(tags[i]) is None,
    ensures
        max_version(tags.remove(i)) == max_version(tags),
{
    let rest = tags.remove(i);
    let m = max_version(rest);
    lemma_max_is_highest(rest);
    lemma_max_is_highest(tags);
    assert forall|j: int|
        0 <= j < tags.len() && (#[trigger] tag_version(tags[j])) is Some implies version_le(
        tag_version(tags[j]).unwrap(),
        m,
    ) by {
        if j < i {
            assert(rest[j] == tags[j]);
            assert(version_le(tag_version(rest[j]).unwrap(), m));
        } else {
            assert(rest[j - 1] == tags[j]);
            assert(version_le(tag_version(rest[j - 1]).unwrap(), m));
        }
    }
    if m != (0nat, 0nat, 0nat) {
        let k = choose|k: int| 0 <= k < rest.len() && #[trigger] tag_version(rest[k]) == Some(m);
        if k < i {
            assert(tags[k] == rest[k]);
            assert(tag_version(tags[k]) == Some(m));
        } else {
            assert(tags[k + 1] == rest[k]);
            assert(tag_version(tags[k + 1]) == Some(m));
        }
    }
    assert(is_highest(tags, m));
    lemma_highest_unique(tags, m, max_version(tags));
}

} // verus!
