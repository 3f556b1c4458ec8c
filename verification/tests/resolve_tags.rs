use gbump::resolve::{read_groups, read_tag};
use gbump::{semver, try_semver, TagReading};
use std::collections::BTreeSet;

fn as_list(tags: BTreeSet<String>) -> Vec<String> {
    tags.into_iter().collect()
}

fn list_of(names: &[&str]) -> Vec<String> {
    names.iter().map(|name| name.to_string()).collect()
}

#[test]
fn test_semver_major() {
    let mut tags = BTreeSet::<String>::new();
    tags.insert("0.1.2".to_string());
    tags.insert("3.7.0".to_string());
    tags.insert("1.17.1".to_string());
    tags.insert("2.7.2".to_string());
    tags.insert("0.24.0".to_string());
    let (major, minor, patch): (usize, usize, usize) = semver(&as_list(tags));
    assert_eq!(major, 3);
    assert_eq!(minor, 7);
    assert_eq!(patch, 0);
}

#[test]
fn test_semver_minor() {
    let mut tags = BTreeSet::<String>::new();
    tags.insert("0.1.2".to_string());
    tags.insert("0.7.0".to_string());
    tags.insert("0.7.1".to_string());
    tags.insert("0.7.2".to_string());
    tags.insert("0.2.2".to_string());
    tags.insert("0.9.0".to_string());
    tags.insert("0.8.3".to_string());
    tags.insert("0.23.0".to_string());
    tags.insert("0.24.0".to_string());
    let (major, minor, patch): (usize, usize, usize) = semver(&as_list(tags));
    assert_eq!(major, 0);
    assert_eq!(minor, 24);
    assert_eq!(patch, 0);
}

#[test]
fn test_semver_patch() {
    let mut tags = BTreeSet::<String>::new();
    tags.insert("0.1.2".to_string());
    tags.insert("0.7.0".to_string());
    tags.insert("0.7.1".to_string());
    tags.insert("0.7.2".to_string());
    tags.insert("0.2.2".to_string());
    tags.insert("0.9.0".to_string());
    tags.insert("0.8.3".to_string());
    tags.insert("0.23.0".to_string());
    tags.insert("0.24.0".to_string());
    tags.insert("0.99.100".to_string());
    let (major, minor, patch): (usize, usize, usize) = semver(&as_list(tags));
    assert_eq!(major, 0);
    assert_eq!(minor, 99);
    assert_eq!(patch, 100);
}

#[test]
fn test_semver_regex() {
    let mut tags = BTreeSet::<String>::new();
    tags.insert("1.2.3".to_string());
    tags.insert("10.20.30".to_string());
    tags.insert("1.1.2-prerelease+meta".to_string());
    tags.insert("1.1.2+meta".to_string());
    tags.insert("1.1.2+meta-valid".to_string());
    tags.insert("1.0.0-alpha".to_string());
    tags.insert("1.0.0-beta".to_string());
    tags.insert("1.0.0-alpha.beta".to_string());
    tags.insert("1.0.0-alpha.beta.1".to_string());
    tags.insert("1.0.0-alpha.1".to_string());
    tags.insert("1.0.0-alpha0.valid".to_string());
    tags.insert("1.0.0-alpha.0valid".to_string());
    tags.insert("1.0.0-alpha-a.b-c-somethinglong+build.1-aef.1-its-okay".to_string());
    tags.insert("1.0.0-rc.1+build.1".to_string());
    tags.insert("2.0.0-rc.1+build.123".to_string());
    tags.insert("1.2.3-beta".to_string());
    tags.insert("10.2.3-DEV-SNAPSHOT".to_string());
    tags.insert("1.2.3-SNAPSHOT-123".to_string());
    tags.insert("1.0.0".to_string());
    tags.insert("2.0.0".to_string());
    tags.insert("1.1.7".to_string());
    tags.insert("2.0.0+build.1848".to_string());
    tags.insert("2.0.1-alpha.1227".to_string());
    tags.insert("1.0.0-alpha+beta".to_string());
    tags.insert("1.2.3----RC-SNAPSHOT.12.9.1--.12+788".to_string());
    tags.insert("1.2.3----R-S.12.9.1--.12+meta".to_string());
    tags.insert("1.2.3----RC-SNAPSHOT.12.9.1--.12".to_string());
    tags.insert("1.0.0+0.build.1-rc.10000aaa-kk-0.1".to_string());
    tags.insert("0.999999999999999999.99999999999999999".to_string());
    tags.insert("1.0.0-0A.is.legal".to_string());
    tags.insert("v1.1.1".to_string());
    tags.insert("1.1.1".to_string());
    tags.insert("0.0.0".to_string());
    tags.insert("v0.0.3".to_string());
    tags.insert("0.0.0".to_string());
    tags.insert("1.1.1  1.1".to_string());
    tags.insert("12.1.0---FreeBSD.12.1-RELEASE".to_string());
    let (major, minor, patch): (usize, usize, usize) = semver(&as_list(tags));
    assert_eq!(major, 12);
    assert_eq!(minor, 1);
    assert_eq!(patch, 0);
}

#[test]
fn no_tags_give_zero() {
    assert_eq!(semver(&Vec::new()), (0, 0, 0));
    assert_eq!(try_semver(&Vec::new()), Some((0, 0, 0)));
}

#[test]
fn only_unmatched_tags_give_zero() {
    let tags = list_of(&["release", "1.2", "a.b.c", "v7", "", "1..2.3", "1.2."]);
    assert_eq!(try_semver(&tags), Some((0, 0, 0)));
}

#[test]
fn unmatched_tags_are_ignored() {
    let with = list_of(&["nightly", "2.0.1", "1.2", "0.9.9", "latest"]);
    let without = list_of(&["2.0.1", "0.9.9"]);
    assert_eq!(try_semver(&with), Some((2, 0, 1)));
    assert_eq!(try_semver(&without), Some((2, 0, 1)));
}

#[test]
fn order_and_repeats_do_not_matter() {
    let a = list_of(&["1.9.0", "1.10.0", "0.99.99", "1.10.0"]);
    let b = list_of(&["1.10.0", "0.99.99", "1.9.0"]);
    let c = list_of(&["0.99.99", "1.9.0", "1.10.0", "1.9.0"]);
    assert_eq!(try_semver(&a), Some((1, 10, 0)));
    assert_eq!(try_semver(&b), Some((1, 10, 0)));
    assert_eq!(try_semver(&c), Some((1, 10, 0)));
}

#[test]
fn precedence_goes_major_minor_patch() {
    assert_eq!(try_semver(&list_of(&["1.9.9", "2.0.0"])), Some((2, 0, 0)));
    assert_eq!(try_semver(&list_of(&["2.0.0", "1.9.9"])), Some((2, 0, 0)));
    assert_eq!(try_semver(&list_of(&["1.2.9", "1.3.0"])), Some((1, 3, 0)));
    assert_eq!(try_semver(&list_of(&["1.3.0", "1.2.9"])), Some((1, 3, 0)));
    assert_eq!(try_semver(&list_of(&["1.3.1", "1.3.2"])), Some((1, 3, 2)));
    assert_eq!(try_semver(&list_of(&["1.3.2", "1.3.1"])), Some((1, 3, 2)));
    assert_eq!(try_semver(&list_of(&["0.0.0"])), Some((0, 0, 0)));
}

#[test]
fn large_components_are_read_exactly() {
    let tags = list_of(&["0.999999999999999999.99999999999999999"]);
    assert_eq!(semver(&tags), (0, 999999999999999999, 99999999999999999));
    assert_eq!(
        read_tag("0.999999999999999999.99999999999999999"),
        TagReading::Version(0, 999999999999999999, 99999999999999999)
    );
}

#[test]
fn first_occurrence_counts() {
    assert_eq!(read_tag("v1.1.1"), TagReading::Version(1, 1, 1));
    assert_eq!(read_tag("v0.0.3"), TagReading::Version(0, 0, 3));
    assert_eq!(read_tag("1.1.1  1.1"), TagReading::Version(1, 1, 1));
    assert_eq!(read_tag("12.1.0---FreeBSD.12.1-RELEASE"), TagReading::Version(12, 1, 0));
    assert_eq!(read_tag("build-4.5.6-then-7.8.9"), TagReading::Version(4, 5, 6));
    assert_eq!(read_tag("1.0.0+0.build.1-rc.10000aaa-kk-0.1"), TagReading::Version(1, 0, 0));
}

#[test]
fn leading_zeros_are_not_part_of_a_component() {
    assert_eq!(read_tag("01.2.3"), TagReading::Version(1, 2, 3));
    assert_eq!(read_tag("1.2.03"), TagReading::Version(1, 2, 0));
    assert_eq!(read_tag("1.02.3"), TagReading::NoVersion);
    assert_eq!(read_tag("1.02.3.4"), TagReading::Version(2, 3, 4));
}

#[test]
fn tags_without_a_version() {
    assert_eq!(read_tag(""), TagReading::NoVersion);
    assert_eq!(read_tag("release"), TagReading::NoVersion);
    assert_eq!(read_tag("1.2"), TagReading::NoVersion);
    assert_eq!(read_tag("1.2.x"), TagReading::NoVersion);
    assert_eq!(read_tag("1-2-3"), TagReading::NoVersion);
}

#[test]
fn oversized_component_is_unreadable() {
    assert_eq!(read_tag("1.340282366920938463463374607431768211456.0"), TagReading::Unreadable);
    let tags = list_of(&["1.0.0", "1.340282366920938463463374607431768211456.0"]);
    assert_eq!(try_semver(&tags), None);
    let fine = list_of(&["1.0.0", "not-a-version"]);
    assert_eq!(try_semver(&fine), Some((1, 0, 0)));
}

#[test]
fn largest_component_is_readable() {
    let text = format!("{}.{}.{}", usize::MAX, 0, usize::MAX);
    assert_eq!(read_tag(&text), TagReading::Version(usize::MAX, 0, usize::MAX));
}

#[test]
fn groups_spell_a_version() {
    let text = |s: &str| Some(s.to_string());
    let good = vec![text("1.20.300"), text("1"), text("20"), text("300")];
    assert_eq!(read_groups(&good), Some((1, 20, 300)));
    let short = vec![text("1.20"), text("1"), text("20")];
    assert_eq!(read_groups(&short), None);
    let long = vec![text("1.2.3.4"), text("1"), text("2"), text("3"), text("4")];
    assert_eq!(read_groups(&long), None);
    let absent = vec![text("1.2."), text("1"), text("2"), None];
    assert_eq!(read_groups(&absent), None);
    let empty = vec![text("1.2."), text("1"), text("2"), text("")];
    assert_eq!(read_groups(&empty), None);
    let letters = vec![text("1.2.x"), text("1"), text("2"), text("x")];
    assert_eq!(read_groups(&letters), None);
    let whole_is_not_read = vec![None, text("4"), text("5"), text("6")];
    assert_eq!(read_groups(&whole_is_not_read), Some((4, 5, 6)));
    assert_eq!(read_groups(&Vec::new()), None);
}

#[test]
fn digits_outside_ascii_are_unreadable() {
    assert_eq!(read_tag("1.2.3\u{0664}"), TagReading::Unreadable);
    assert_eq!(try_semver(&list_of(&["1.2.3\u{0664}"])), None);
    assert_eq!(read_tag("\u{0661}.\u{0662}.\u{0663}"), TagReading::NoVersion);
}
