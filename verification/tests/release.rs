use bap_core::model::Error;
use bap_core::release::{
    describe_failure, epoch_seconds, failed_request, from_raw, is_not_found, unreadable, Asset,
    RawRelease, RELEASES_PAGE,
};

fn raw(tag: &str) -> RawRelease {
    RawRelease {
        tag_name: tag.to_string(),
        name: None,
        body: None,
        published_at: None,
        html_url: None,
        draft: false,
        prerelease: false,
        assets: Vec::new(),
    }
}

#[test]
fn timestamps_agree_with_date() {
    assert_eq!(epoch_seconds("1970-01-01T00:00:00Z"), Some(0));
    assert_eq!(epoch_seconds("2000-03-01T00:00:00Z"), Some(951_868_800));
    assert_eq!(epoch_seconds("2024-02-29T23:59:59Z"), Some(1_709_251_199));
    assert_eq!(epoch_seconds("1999-12-31T00:00:00Z"), Some(946_598_400));
    assert_eq!(epoch_seconds("2026-09-01T12:34:56Z"), Some(1_788_266_096));
}

#[test]
fn a_timestamp_that_is_not_utc_iso_is_not_guessed_at() {
    for bad in [
        "",
        "2026-09-01",
        "2026-09-01T12:34:56",
        "2026-09-01T12:34:56+02:00",
        "yesterday",
        "2026-13-01T00:00:00Z",
    ] {
        assert_eq!(epoch_seconds(bad), None, "{bad:?}");
    }
}

#[test]
fn a_body_that_is_absent_reads_as_empty_rather_than_failing() {
    let release = from_raw(raw("v1.0.0")).expect("a release");
    assert_eq!(release.notes, "");
    assert_eq!(release.url, RELEASES_PAGE);
    assert_eq!(release.name, "BAP Store 1.0.0");
    assert_eq!(release.published, None);
}

#[test]
fn drafts_prereleases_and_foreign_tags_are_ignored_not_offered() {
    let mut draft = raw("v1.0.0");
    draft.draft = true;
    let mut candidate = raw("v1.0.0");
    candidate.prerelease = true;
    for r in [draft, candidate, raw("nightly")] {
        assert_eq!(from_raw(r), None);
    }
}

#[test]
fn a_reply_that_is_not_a_release_is_an_error_not_a_guess() {
    let err = unreadable("missing field `tag_name` at line 1 column 80");
    assert!(
        err.message
            .starts_with("GitHub sent something that was not a release"),
        "{}",
        err.message
    );
    assert!(err.message.ends_with(". Try again later."));
}

#[test]
fn only_the_404_sentence_reads_as_no_release_yet() {
    assert!(is_not_found(&Error::new(
        "api.github.com answered 404 Not Found".to_string()
    )));
    assert!(!is_not_found(&Error::new(
        "api.github.com answered 403 Forbidden".to_string()
    )));
    assert!(!is_not_found(&Error::new(
        "could not reach api.github.com".to_string()
    )));
}

#[test]
fn a_403_or_429_names_the_request_limit_and_when_to_try_again() {
    for status in ["403 Forbidden", "429 Too Many Requests"] {
        let e = describe_failure(&Error::new(format!("api.github.com answered {status}")));
        assert_eq!(
            e.message,
            "GitHub's request limit for this address is used up, so a newer BAP Store could not be checked for. Try again in an hour."
        );
    }
    let e = describe_failure(&Error::new("could not reach api.github.com".to_string()));
    assert_eq!(
        e.message,
        "Could not check GitHub for a newer BAP Store: could not reach api.github.com. Try again later."
    );
    assert!(!describe_failure(&Error::new(
        "api.github.com answered 500 Internal Server Error".to_string()
    ))
    .message
    .contains("limit"));
}

#[test]
fn a_release_keeps_what_github_said() {
    let mut r = raw("v0.3.1");
    r.name = Some("Spring".to_string());
    r.body = Some("Notes".to_string());
    r.published_at = Some("2026-09-01T12:34:56Z".to_string());
    r.html_url = Some("https://example.org/r".to_string());
    r.assets = vec![Asset {
        name: "a".to_string(),
        browser_download_url: "https://example.org/a".to_string(),
        size: 3,
    }];
    let release = from_raw(r).expect("a release");
    assert_eq!(release.name, "Spring");
    assert_eq!(release.notes, "Notes");
    assert_eq!(release.published, Some(1_788_266_096));
    assert_eq!(release.url, "https://example.org/r");
    assert_eq!(release.tag, "v0.3.1");
    assert_eq!(release.assets.len(), 1);
    let mut empty_name = raw("v0.3.1");
    empty_name.name = Some(String::new());
    assert_eq!(from_raw(empty_name).expect("a release").name, "BAP Store 0.3.1");
}

#[test]
fn a_missing_release_is_no_release_and_other_failures_are_sentences() {
    let none = failed_request(&Error::new("api.github.com answered 404 Not Found".to_string()));
    assert_eq!(none, Ok(None));
    let other = failed_request(&Error::new("timed out".to_string()));
    assert_eq!(
        other.unwrap_err().message,
        "Could not check GitHub for a newer BAP Store: timed out. Try again later."
    );
    assert_eq!(epoch_seconds("1969-12-31T23:59:59Z"), Some(-1));
    assert_eq!(epoch_seconds("0000-03-01T00:00:00Z"), Some(-62_162_035_200));
    assert_eq!(epoch_seconds("9999999999999999-01-01T00:00:00Z"), None);
}
