//! Versions, and which of a remote's tags is the newest release.

use pinz::release::{latest_in, latest_release, ls_remote_args, Standing, Version};

fn v(major: u32, minor: u32, patch: u32) -> Version {
    Version { major, minor, patch }
}

#[test]
fn a_tag_parses_with_or_without_its_v() {
    assert_eq!(Version::parse("v0.4.1"), Some(v(0, 4, 1)));
    assert_eq!(Version::parse("0.4.1"), Some(v(0, 4, 1)));
    assert_eq!(Version::parse("12.0.30"), Some(v(12, 0, 30)));
}

#[test]
fn anything_that_is_not_three_numbers_is_not_a_version() {
    for text in ["v0.4", "v.0.2.0", "0.4.1.2", "v0.4.x", "nightly", "", "v"] {
        assert_eq!(Version::parse(text), None, "{text:?}");
    }
}

#[test]
fn a_pre_release_tag_does_not_count_as_a_release() {
    // Reading this as 0.5.0 would announce a release that never shipped.
    assert_eq!(Version::parse("v0.5.0-rc.1"), None);
}

#[test]
fn versions_order_by_number_and_not_by_text() {
    // The text order would put 0.10.0 before 0.9.0.
    assert!(v(0, 10, 0) > v(0, 9, 0));
    assert!(v(1, 0, 0) > v(0, 99, 99));
    assert!(v(0, 4, 1) > v(0, 4, 0));
}

#[test]
fn the_newest_tag_wins_whatever_order_they_arrive_in() {
    let output = "\
0d1a2b3\trefs/tags/v0.2.0
4c5d6e7\trefs/tags/v0.4.0
89abcde\trefs/tags/v0.3.0";
    assert_eq!(latest_in(output), Some(v(0, 4, 0)));
}

#[test]
fn tags_that_are_not_versions_are_ignored_rather_than_fatal() {
    let output = "\
0d1a2b3\trefs/tags/v0.4.0
4c5d6e7\trefs/tags/design-freeze
89abcde\trefs/tags/v0.5.0-rc.1";
    assert_eq!(latest_in(output), Some(v(0, 4, 0)));
}

#[test]
fn a_repo_with_no_release_tags_has_no_latest() {
    assert_eq!(latest_in(""), None);
    assert_eq!(latest_in("0d1a2b3\trefs/tags/design-freeze"), None);
}

#[test]
fn standing_reads_from_the_running_build_towards_the_release() {
    assert_eq!(v(0, 4, 0).standing(&v(0, 4, 0)), Standing::Current);
    assert_eq!(v(0, 4, 0).standing(&v(0, 5, 0)), Standing::Behind);
    // The state this repo was in on 2026-08-27: bumped, never tagged.
    assert_eq!(v(0, 4, 1).standing(&v(0, 4, 0)), Standing::Ahead);
}

#[test]
fn a_version_prints_without_its_v() {
    assert_eq!(v(0, 4, 1).message(), "0.4.1");
}

#[test]
fn an_unreachable_remote_is_unknown_rather_than_an_error() {
    // git failed, so nothing was printed, and failure is not a version.
    assert_eq!(
        ls_remote_args("/nonexistent/pinz-not-a-repo").last().unwrap(),
        "/nonexistent/pinz-not-a-repo"
    );
    assert_eq!(latest_release(None), None);
}
