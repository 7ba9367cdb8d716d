//! What GitHub says the newest release of this repository is.
//!
//! The reply is read into a `RawRelease` of the fields this module uses; what
//! follows, deciding whether it is a release to offer and what it is called,
//! is here. Nothing here builds a download URL: the address of an asset is
//! the one the reply gave, and it must be `https`.

use vstd::prelude::*;
use crate::text;
use crate::model::Error;
use crate::version::{self, Version};

verus! {

/// The repository, as shown to the user.
pub const REPOSITORY: &'static str = "https://github.com/Spillebulle/BAP-Store";

/// Where somebody goes to fetch a build by hand.
pub const RELEASES_PAGE: &'static str = "https://github.com/Spillebulle/BAP-Store/releases";

/// The one request this module makes.
pub const API_LATEST: &'static str = "https://api.github.com/repos/Spillebulle/BAP-Store/releases/latest";

/// How long an answer is trusted before GitHub is asked again, in seconds.
pub const CACHE_SECONDS: u64 = 21600;

pub open spec fn releases_page() -> Seq<char> {
    "https://github.com/Spillebulle/BAP-Store/releases"@
}

/// One file attached to a release.
#[derive(Clone, Debug, PartialEq, Eq)]
pub struct Asset {
    pub name: String,
    pub browser_download_url: String,
    /// The size GitHub recorded on upload.
    pub size: u64,
}

pub open spec fn fetchable(a: Asset) -> bool {
    "https://"@.is_prefix_of(a.browser_download_url@)
}

impl Asset {
    /// Whether this is an address BAP Store is willing to fetch from: TLS to
    /// a host GitHub controls, nothing less.
    pub fn is_fetchable(&self) -> (r: bool)
        ensures
            r == fetchable(*self),
    {
        let url = text::chars(self.browser_download_url.as_str());
        text::starts_with_str(url.as_slice(), "https://")
    }
}

/// A release, reduced to what the check needs.
#[derive(Clone, Debug, PartialEq, Eq)]
pub struct Release {
    pub version: Version,
    pub tag: String,
    /// The release's title; a release with none is called "BAP Store <v>".
    pub name: String,
    /// The release notes, Markdown.
    pub notes: String,
    /// Unix seconds, from `published_at`.
    pub published: Option<i64>,
    /// The release's own page.
    pub url: String,
    pub assets: Vec<Asset>,
}

/// The fields of a release object as GitHub sends it, as far as this module
/// reads it. Everything but the tag may be absent.
#[derive(Clone, Debug, PartialEq, Eq)]
pub struct RawRelease {
    pub tag_name: String,
    pub name: Option<String>,
    pub body: Option<String>,
    pub published_at: Option<String>,
    pub html_url: Option<String>,
    pub draft: bool,
    pub prerelease: bool,
    pub assets: Vec<Asset>,
}

/// A present, non-empty text, or the fallback.
pub open spec fn non_empty_or(o: Option<Seq<char>>, fallback: Seq<char>) -> Seq<char> {
    match o {
        Some(s) => if s.len() > 0 {
            s
        } else {
            fallback
        },
        None => fallback,
    }
}

/// What a release object is: `None` for a draft, a pre-release or a tag that
/// is not `v<version>`; otherwise the release, its title defaulting to
/// "BAP Store <version>", its notes to nothing, its page to the releases
/// page, and its date read by `epoch_spec`.
pub open spec fn release_of(raw: RawRelease, r: Option<Release>) -> bool {
    if raw.draft || raw.prerelease {
        r is None
    } else {
        match version::parse_spec(raw.tag_name@) {
            None => r is None,
            Some(v) => match r {
                None => false,
                Some(rel) => {
                    &&& rel.version@ == v
                    &&& rel.tag@ == raw.tag_name@
                    &&& rel.name@ == non_empty_or(
                        crate::model::opt_view(raw.name),
                        "BAP Store "@ + version::display(v),
                    )
                    &&& rel.notes@ == match raw.body {
                        Some(b) => b@,
                        None => Seq::<char>::empty(),
                    }
                    &&& rel.published == match raw.published_at {
                        Some(p) => match epoch_spec(p@) {
                            Some(n) => Some(n as i64),
                            None => None::<i64>,
                        },
                        None => None::<i64>,
                    }
                    &&& rel.url@ == non_empty_or(crate::model::opt_view(raw.html_url), releases_page())
                    &&& rel.assets@ == raw.assets@
                },
            },
        }
    }
}

fn text_or(o: Option<String>, fallback: String) -> (r: String)
    ensures
        r@ == non_empty_or(crate::model::opt_view(o), fallback@),
{
    match o {
        Some(s) => if !s.as_str().is_empty() {
            s
        } else {
            fallback
        },
        None => fallback,
    }
}

/// Read one release object. `None` is a reply that is a release but not
/// one to offer.
pub fn from_raw(raw: RawRelease) -> (r: Option<Release>)
    ensures
        release_of(raw, r),
{
    if raw.draft || raw.prerelease {
        return None;
    }
    let version = match Version::parse(raw.tag_name.as_str()) {
        Some(v) => v,
        None => return None,
    };
    let mut title = text::string_from("BAP Store ");
    let shown = version.to_string();
    text::push_str(&mut title, shown.as_str());
    let published = match &raw.published_at {
        Some(p) => epoch_seconds(p.as_str()),
        None => None,
    };
    let notes = match raw.body {
        Some(b) => b,
        None => String::new(),
    };
    let url = text_or(raw.html_url, text::string_from(RELEASES_PAGE));
    let name = text_or(raw.name, title);
    proof {
        reveal_strlit("https://github.com/Spillebulle/BAP-Store/releases");
    }
    Some(Release {
        version,
        tag: raw.tag_name,
        name,
        notes,
        published,
        url,
        assets: raw.assets,
    })
}

/// The sentence for a reply that is not a release at all.
pub fn unreadable(reason: &str) -> (e: Error)
    ensures
        e.message@ == "GitHub sent something that was not a release: "@ + reason@
            + ". Try again later."@,
        e.source_kind is None,
{
    let mut s = text::string_from("GitHub sent something that was not a release: ");
    text::push_str(&mut s, reason);
    text::push_str(&mut s, ". Try again later.");
    Error::new(s)
}

pub open spec fn not_found(e: Error) -> bool {
    text::contains_seq(e.message@, "answered 404"@)
}

pub open spec fn rate_limited(e: Error) -> bool {
    text::contains_seq(e.message@, "answered 403"@) || text::contains_seq(
        e.message@,
        "answered 429"@,
    )
}

/// Whether a failed request was GitHub saying the repository has no
/// release yet.
pub fn is_not_found(e: &Error) -> (r: bool)
    ensures
        r == not_found(*e),
{
    let m = text::chars(e.message.as_str());
    text::contains_str(m.as_slice(), "answered 404")
}

/// Whether a failed request was GitHub's request limit.
pub fn is_rate_limited(e: &Error) -> (r: bool)
    ensures
        r == rate_limited(*e),
{
    let m = text::chars(e.message.as_str());
    text::contains_str(m.as_slice(), "answered 403") || text::contains_str(
        m.as_slice(),
        "answered 429",
    )
}

pub open spec fn failure_text(e: Error) -> Seq<char> {
    if rate_limited(e) {
        "GitHub's request limit for this address is used up, so a newer BAP Store could not be checked for. Try again in an hour."@
    } else {
        "Could not check GitHub for a newer BAP Store: "@ + e.message@ + ". Try again later."@
    }
}

/// The sentence for a request that failed for a reason other than "no
/// release yet".
pub fn describe_failure(e: &Error) -> (r: Error)
    ensures
        r.message@ == failure_text(*e),
        r.source_kind is None,
{
    if is_rate_limited(e) {
        return Error::new(
            text::string_from(
                "GitHub's request limit for this address is used up, so a newer BAP Store could not be checked for. Try again in an hour.",
            ),
        );
    }
    let mut s = text::string_from("Could not check GitHub for a newer BAP Store: ");
    text::push_str(&mut s, e.message.as_str());
    text::push_str(&mut s, ". Try again later.");
    Error::new(s)
}

/// What a failed request for the newest release comes to: a 404 is a
/// repository with no release yet, `Ok(None)`; anything else is the
/// failure's sentence.
pub fn failed_request(e: &Error) -> (r: Result<Option<Release>, Error>)
    ensures
        not_found(*e) ==> r == Ok::<Option<Release>, Error>(None),
        !not_found(*e) ==> match r {
            Err(x) => x.message@ == failure_text(*e),
            Ok(_) => false,
        },
{
    if is_not_found(e) {
        Ok(None)
    } else {
        Err(describe_failure(e))
    }
}

// ---------------------------------------------------------------------------
// Timestamps
// ---------------------------------------------------------------------------

/// Days since 1970-01-01 for a proleptic Gregorian date.
pub open spec fn days_from_civil(year: int, month: int, day: int) -> int {
    let y = if month <= 2 {
        year - 1
    } else {
        year
    };
    let era = y / 400;
    let yoe = y - era * 400;
    let mp = (month + 9) % 12;
    let doy = (153 * mp + 2) / 5 + day - 1;
    let doe = yoe * 365 + yoe / 4 - yoe / 100 + doy;
    era * 146097 + doe - 719468
}

/// `2026-09-01T12:34:56Z` as Unix seconds: a `Z` at the end, a date of
/// three dash-separated numbers with the month in 1..=12 and the day in
/// 1..=31, a `T`, and a time of three colon-separated numbers with the hour
/// at most 23, the minute at most 59 and the second at most 60. `None` for
/// anything else, and for a moment too far from 1970 for an `i64`.
pub open spec fn epoch_spec(iso: Seq<char>) -> Option<int> {
    if !(iso.len() > 0 && iso.last() == 'Z') {
        None
    } else {
        match text::split_once(iso.drop_last(), 'T') {
            None => None,
            Some((date, time)) => {
                let d = text::split(date, '-');
                let t = text::split(time, ':');
                if d.len() != 3 || t.len() != 3 {
                    None
                } else {
                    match (
                        text::parse_signed(d[0]),
                        text::parse_unsigned(d[1], u32::MAX as nat),
                        text::parse_unsigned(d[2], u32::MAX as nat),
                        text::parse_signed(t[0]),
                        text::parse_signed(t[1]),
                        text::parse_signed(t[2]),
                    ) {
                        (Some(year), Some(month), Some(day), Some(hour), Some(minute), Some(second)) => {
                            if !(1 <= month <= 12) || !(1 <= day <= 31) || hour > 23 || minute > 59
                                || second > 60 {
                                None
                            } else {
                                let n = days_from_civil(year, month as int, day as int) * 86400
                                    + hour * 3600 + minute * 60 + second;
                                if i64::MIN <= n <= i64::MAX {
                                    Some(n)
                                } else {
                                    None
                                }
                            }
                        },
                        _ => None,
                    }
                }
            },
        }
    }
}

fn floor_div_400(y: i128) -> (r: i128)
    requires
        -0x1_0000_0000_0000_0000_0000 <= y <= 0x1_0000_0000_0000_0000_0000,
    ensures
        r == y / 400,
{
    if y >= 0 {
        let u: u128 = y as u128;
        (u / 400) as i128
    } else {
        let u: u128 = (399 - y) as u128;
        let q: u128 = u / 400;
        let r: i128 = -(q as i128);
        assert(r == y / 400);
        r
    }
}

pub(crate) fn days_from_civil_exec(year: i64, month: u32, day: u32) -> (r: i128)
    requires
        1 <= month <= 12,
        1 <= day <= 31,
    ensures
        r == days_from_civil(year as int, month as int, day as int),
        -0x10_0000_0000_0000_0000_0000 <= r <= 0x10_0000_0000_0000_0000_0000,
{
    let y: i128 = if month <= 2 {
        (year as i128) - 1
    } else {
        year as i128
    };
    let era = floor_div_400(y);
    let yoe: i128 = y - era * 400;
    assert(0 <= yoe < 400);
    let mp: u32 = (month + 9) % 12;
    let doy: u32 = (153 * mp + 2) / 5 + day - 1;
    let yoe_u: u32 = yoe as u32;
    let doe: u32 = yoe_u * 365 + yoe_u / 4 - yoe_u / 100 + doy;
    let r: i128 = era * 146097 + (doe as i128) - 719468;
    r
}

/// `2026-09-01T12:34:56Z` as Unix seconds; `None` for anything else.
pub fn epoch_seconds(iso: &str) -> (r: Option<i64>)
    ensures
        match r {
            Some(n) => epoch_spec(iso@) == Some(n as int),
            None => epoch_spec(iso@) is None,
        },
{
    let all = text::chars(iso);
    if !(all.len() > 0 && all[all.len() - 1] == 'Z') {
        return None;
    }
    let stripped = text::slice_chars(all.as_slice(), 0, all.len() - 1);
    assert(stripped@ =~= iso@.drop_last());
    let (date, time) = match text::split_once_char(stripped.as_slice(), 'T') {
        Some(found) => found,
        None => return None,
    };
    let d = text::split_char(date.as_slice(), '-');
    let t = text::split_char(time.as_slice(), ':');
    assert(text::views(d@).len() == d@.len());
    assert(text::views(t@).len() == t@.len());
    if d.len() != 3 || t.len() != 3 {
        return None;
    }
    assert(text::views(d@)[0] == d@[0]@ && text::views(d@)[1] == d@[1]@ && text::views(d@)[2]
        == d@[2]@);
    assert(text::views(t@)[0] == t@[0]@ && text::views(t@)[1] == t@[1]@ && text::views(t@)[2]
        == t@[2]@);
    let year = text::parse_i64_chars(d[0].as_slice());
    let month = text::parse_unsigned_chars(d[1].as_slice(), u32::MAX as u64);
    let day = text::parse_unsigned_chars(d[2].as_slice(), u32::MAX as u64);
    let hour = text::parse_i64_chars(t[0].as_slice());
    let minute = text::parse_i64_chars(t[1].as_slice());
    let second = text::parse_i64_chars(t[2].as_slice());
    match (year, month, day, hour, minute, second) {
        (Some(year), Some(month), Some(day), Some(hour), Some(minute), Some(second)) => {
            if !(1 <= month && month <= 12) || !(1 <= day && day <= 31) || hour > 23 || minute > 59
                || second > 60 {
                return None;
            }
            let days = days_from_civil_exec(year, month as u32, day as u32);
            let n: i128 = days * 86400 + (hour as i128) * 3600 + (minute as i128) * 60
                + (second as i128);
            if (i64::MIN as i128) <= n && n <= (i64::MAX as i128) {
                Some(n as i64)
            } else {
                None
            }
        },
        _ => None,
    }
}

} // verus!
