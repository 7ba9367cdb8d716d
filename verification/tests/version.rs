use bap_core::version::Version;

fn v(major: u64, minor: u64, patch: u64) -> Version {
    Version {
        major,
        minor,
        patch,
        pre: None,
    }
}

fn pre(major: u64, minor: u64, patch: u64, pre: &str) -> Version {
    Version {
        major,
        minor,
        patch,
        pre: Some(pre.to_string()),
    }
}

#[test]
fn a_version_is_compared_as_numbers_not_as_text() {
    assert!(v(0, 0, 10) > v(0, 0, 9));
    assert!("0.0.10" < "0.0.9", "the trap this guards against");
    assert!(v(0, 10, 0) > v(0, 9, 0));
    assert!(v(10, 0, 0) > v(9, 0, 0));
    assert!(v(1, 0, 0) > v(0, 99, 99));
    assert!(v(0, 2, 0) > v(0, 1, 99));
    assert_eq!(v(1, 2, 3), v(1, 2, 3));
}

#[test]
fn a_candidate_sorts_below_the_release_it_precedes() {
    assert!(pre(0, 2, 0, "rc.1") < v(0, 2, 0));
    assert!(pre(0, 2, 0, "rc.1") > v(0, 1, 9));
    assert!(pre(0, 2, 0, "rc.2") > pre(0, 2, 0, "rc.1"));
    assert!(pre(0, 2, 0, "rc.10") > pre(0, 2, 0, "rc.9"));
    assert!(pre(0, 2, 0, "beta") > pre(0, 2, 0, "alpha"));
    assert!(pre(0, 2, 0, "alpha.1") > pre(0, 2, 0, "alpha"));
    assert!(pre(0, 2, 0, "1") < pre(0, 2, 0, "alpha"));
}

#[test]
fn the_tags_the_release_workflow_pushes_parse() {
    assert_eq!(Version::parse("v0.0.1"), Some(v(0, 0, 1)));
    assert_eq!(Version::parse("v0.0.10"), Some(v(0, 0, 10)));
    assert_eq!(Version::parse("0.1.0"), Some(v(0, 1, 0)));
    assert_eq!(Version::parse("v12.34.56"), Some(v(12, 34, 56)));
    assert_eq!(Version::parse("v0.2.0-rc.1"), Some(pre(0, 2, 0, "rc.1")));
    assert_eq!(Version::parse(" v0.1.0 "), Some(v(0, 1, 0)));
}

#[test]
fn a_tag_that_is_not_ours_is_ignored_rather_than_misparsed() {
    for tag in [
        "nightly",
        "latest",
        "v2-beta",
        "v0.1",
        "v0.1.0.1",
        "v0.1.0+build",
        "vv0.1.0",
        "v0.1.x",
        "v 0.1.0",
        "v+1.0.0",
        "v-1.0.0",
        "v1..0",
        "v1.0.0-",
        "v1.0.0-rc..1",
        "v1.0.0-rc 1",
        "v",
        "",
    ] {
        assert_eq!(Version::parse(tag), None, "{tag:?} was parsed");
    }
}

#[test]
fn a_version_round_trips_through_its_own_display() {
    for version in [v(0, 0, 1), v(0, 0, 10), v(1, 20, 300), pre(0, 2, 0, "rc.1")] {
        assert_eq!(Version::parse(&version.to_string()), Some(version));
    }
}

#[test]
fn this_build_knows_its_own_version() {
    assert_eq!(
        Version::current(),
        Version::parse("0.1.0").expect("the crate version parses")
    );
    assert!(Version::current().is_release());
}

#[test]
fn precedence_is_antisymmetric_and_transitive_on_examples() {
    let a = pre(1, 0, 0, "alpha");
    let b = pre(1, 0, 0, "alpha.1");
    let c = v(1, 0, 0);
    assert_eq!(a.precedence(&b), -1);
    assert_eq!(b.precedence(&a), 1);
    assert_eq!(b.precedence(&c), -1);
    assert_eq!(a.precedence(&c), -1);
    assert_eq!(c.precedence(&c), 0);
    assert_eq!(v(0, 0, 1).to_string(), "0.0.1");
    assert_eq!(pre(0, 2, 0, "rc.1").to_string(), "0.2.0-rc.1");
    assert_eq!(Version::parse("18446744073709551616.0.0"), None);
    assert_eq!(
        Version::parse("18446744073709551615.0.0"),
        Some(v(18446744073709551615, 0, 0))
    );
}
