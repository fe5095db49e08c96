use std::cmp::Ordering;

use djls_core::update::{compare_versions, parse_version, update_status, LatestRelease};

fn release(version: Option<&str>, available: bool, prerelease: bool) -> LatestRelease {
    LatestRelease { version: version.map(|v| v.to_string()), prerelease, available }
}

#[test]
fn a_newer_tag_is_newer() {
    assert_eq!(compare_versions("0.1.4", "v0.1.5"), Some(Ordering::Less));
    assert_eq!(compare_versions("v0.1.5", "0.1.4"), Some(Ordering::Greater));
    assert_eq!(compare_versions("0.1.4", "v0.1.4"), Some(Ordering::Equal));
}

#[test]
fn ten_is_after_nine() {
    // The reason this is not a string comparison. Lexically "0.1.10" sorts
    // before "0.1.9", which would leave everyone stuck on .9 forever with
    // no error anywhere to explain it.
    assert_eq!(compare_versions("0.1.9", "0.1.10"), Some(Ordering::Less));
    assert_eq!(compare_versions("0.9.0", "0.10.0"), Some(Ordering::Less));
    assert_eq!(compare_versions("1.0.0", "10.0.0"), Some(Ordering::Less));
}

#[test]
fn missing_components_are_zero() {
    assert_eq!(compare_versions("0.1", "0.1.0"), Some(Ordering::Equal));
    assert_eq!(compare_versions("1", "1.0.0"), Some(Ordering::Equal));
    assert_eq!(compare_versions("0.2", "0.1.9"), Some(Ordering::Greater));
}

#[test]
fn a_suffix_orders_by_its_numbers() {
    assert_eq!(compare_versions("0.1.4", "0.1.5-rc.1"), Some(Ordering::Less));
    assert_eq!(compare_versions("0.1.5+build7", "0.1.5"), Some(Ordering::Equal));
}

#[test]
fn nonsense_is_unknown_rather_than_older() {
    // Every one of these would otherwise have to be sorted against a real
    // version, and any answer would be invented. `None` reaches the caller
    // as "no banner".
    for tag in ["", "latest", "v", "nightly", "0.1.x", "1.2.3.4", "0..1"] {
        assert_eq!(compare_versions("0.1.4", tag), None, "{tag:?} should not compare");
        assert_eq!(compare_versions(tag, "0.1.4"), None, "{tag:?} should not compare");
    }
}

#[test]
fn whitespace_does_not_change_the_answer() {
    assert_eq!(compare_versions(" 0.1.4 ", "\tv0.1.4\n"), Some(Ordering::Equal));
}

#[test]
fn versions_are_three_numbers() {
    assert_eq!(parse_version("V1.2.3-rc.1"), Some((1, 2, 3)));
    assert_eq!(parse_version("18446744073709551616"), None);
    assert_eq!(parse_version("-1"), None);
}

#[test]
fn an_update_is_announced_only_when_it_is_clear() {
    let s = update_status("https://x.test//", "0.1.4", release(Some("v0.1.5"), true, false));
    assert!(s.update_available);
    assert_eq!(s.current, "0.1.4");
    assert_eq!(s.latest.as_deref(), Some("0.1.5"));
    assert_eq!(s.download_url, "https://x.test/download");

    for r in [
        release(Some("v0.1.5"), false, false),
        release(Some("v0.1.5"), true, true),
        release(None, true, false),
    ] {
        let s = update_status("https://x.test", "v0.1.4", r);
        assert!(!s.update_available);
        assert_eq!(s.latest, None);
        assert_eq!(s.current, "0.1.4");
    }

    let s = update_status("https://x.test", "vnightly", release(Some("v9"), true, false));
    assert!(!s.update_available);
    assert_eq!(s.current, "nightly");
    assert_eq!(s.latest.as_deref(), Some("9"));
}
