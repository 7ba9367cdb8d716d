use bap_core::model::{PackageKind, PackageRef, Op, Picture, SourceKind};
use bap_core::snap::{
    api_sentence, connect_failure, details_from, encode, find_path, full_channel, icon_candidates, kind_of, parse_response,
    plan_for, put_mount_dir_first, request, rfc3339_to_unix, status_for, to_package, update_of, ApiError,
    AppInfo, ConnectProblem, Details, Locations, Media, Presence, Publisher, SnapInfo, SnapdInfo,
};

#[test]
fn a_content_length_body_reads_back() {
    let raw = b"HTTP/1.1 200 OK\r\nContent-Type: application/json\r\nContent-Length: 13\r\n\r\n{\"result\":[]}";
    let r = parse_response(raw).unwrap();
    assert_eq!(r.status, 200);
    assert_eq!(r.body, b"{\"result\":[]}");
}

#[test]
fn a_chunked_body_reads_back_with_extensions_and_trailers() {
    let raw = b"HTTP/1.1 200 OK\r\nTransfer-Encoding: chunked\r\n\r\n4;ext=1\r\n{\"re\r\n9\r\nsult\":[]}\r\n0\r\nX-Trailer: yes\r\n\r\n";
    let r = parse_response(raw).unwrap();
    assert_eq!(r.status, 200);
    assert_eq!(r.body, b"{\"result\":[]}");
}

#[test]
fn a_body_without_a_length_runs_to_the_end() {
    let raw = b"HTTP/1.0 404 Not Found\r\nConnection: close\r\n\r\nnothing here";
    let r = parse_response(raw).unwrap();
    assert_eq!(r.status, 404);
    assert_eq!(r.body, b"nothing here");
}

#[test]
fn header_names_are_case_insensitive() {
    let raw = b"HTTP/1.1 200 OK\r\ncontent-length: 2\r\n\r\nok";
    assert_eq!(parse_response(raw).unwrap().body, b"ok");
    let raw = b"HTTP/1.1 200 OK\r\nTRANSFER-ENCODING: Chunked\r\n\r\n2\r\nok\r\n0\r\n\r\n";
    assert_eq!(parse_response(raw).unwrap().body, b"ok");
}

#[test]
fn a_short_body_is_reported_not_returned() {
    let raw = b"HTTP/1.1 200 OK\r\nContent-Length: 20\r\n\r\nshort";
    let e = parse_response(raw).unwrap_err();
    assert!(
        e.message.contains("before its answer was complete"),
        "{}",
        e.message
    );
    assert_eq!(e.source_kind, Some(SourceKind::Snap));
}

#[test]
fn something_that_is_not_http_is_reported() {
    let e = parse_response(b"<html>oops</html>\r\n\r\n").unwrap_err();
    assert!(e.message.contains("not HTTP"), "{}", e.message);
    let e = parse_response(b"").unwrap_err();
    assert!(e.message.contains("closed the connection"), "{}", e.message);
    let e = parse_response(b"HTTP/1.1 200 OK\r\nTransfer-Encoding: chunked\r\n\r\nzz\r\n")
        .unwrap_err();
    assert!(e.message.contains("chunk size"), "{}", e.message);
}

#[test]
fn a_bad_length_is_quoted_back() {
    let e = parse_response(b"HTTP/1.1 200 OK\r\nContent-Length: lots\r\n\r\n").unwrap_err();
    assert_eq!(
        e.message,
        "snapd sent a Content-Length that is not a number: \"lots\"."
    );
    let e = parse_response(b"<html>oops</html>\r\n\r\n").unwrap_err();
    assert_eq!(
        e.message,
        "snapd answered with something that is not HTTP: \"<html>oops</html>\"."
    );
}

#[test]
fn the_request_is_a_closed_http_1_1_get_for_localhost() {
    let r = request("/v2/find?q=firefox");
    assert!(r.starts_with("GET /v2/find?q=firefox HTTP/1.1\r\n"));
    assert!(r.contains("\r\nHost: localhost\r\n"));
    assert!(r.contains("\r\nConnection: close\r\n"));
    assert!(r.ends_with("\r\n\r\n"));
}

#[test]
fn search_text_is_percent_encoded() {
    assert_eq!(encode("firefox"), "firefox");
    assert_eq!(encode("visual studio code"), "visual%20studio%20code");
    assert_eq!(encode("c++ & ünïcode"), "c%2B%2B%20%26%20%C3%BCn%C3%AFcode");
    assert_eq!(encode("a-b.c_d~e"), "a-b.c_d~e");
}

#[test]
fn install_dates_become_unix_seconds() {
    assert_eq!(rfc3339_to_unix("1970-01-01T00:00:00Z"), Some(0));
    assert_eq!(rfc3339_to_unix("2024-05-13T09:12:33Z"), Some(1_715_591_553));
    assert_eq!(
        rfc3339_to_unix("2024-05-13T09:12:33.123456789Z"),
        Some(1_715_591_553)
    );
    assert_eq!(
        rfc3339_to_unix("2026-08-30T14:22:07.517389211+02:00"),
        Some(1_788_092_527)
    );
    assert_eq!(
        rfc3339_to_unix("2026-08-30T14:22:07-05:30"),
        Some(1_788_119_527)
    );
    assert_eq!(rfc3339_to_unix("2000-02-29T23:59:59Z"), Some(951_868_799));
    assert_eq!(rfc3339_to_unix(""), None);
    assert_eq!(rfc3339_to_unix("yesterday"), None);
    assert_eq!(rfc3339_to_unix("2024-13-01T00:00:00Z"), None);
    assert_eq!(rfc3339_to_unix("2024-05-13T09:12:33+0200"), None);
}

fn info(kind: &str) -> SnapInfo {
    SnapInfo {
        name: "thing".into(),
        kind: kind.into(),
        ..SnapInfo::default()
    }
}

#[test]
fn kinds_follow_type_and_a_desktop_hint() {
    assert_eq!(kind_of(&info("app"), None), PackageKind::Package);
    let mut with_icon = info("app");
    with_icon.icon = "https://x/icon.png".into();
    assert_eq!(kind_of(&with_icon, None), PackageKind::App);
    let mut with_media = info("app");
    with_media.media.push(Media {
        kind: "icon".into(),
        url: "https://x/i.png".into(),
        ..Media::default()
    });
    assert_eq!(kind_of(&with_media, None), PackageKind::App);
    let mut with_desktop = info("app");
    with_desktop.apps.push(AppInfo {
        name: "thing".into(),
        desktop_file: "/var/lib/snapd/desktop/applications/thing_thing.desktop".into(),
        ..AppInfo::default()
    });
    assert_eq!(kind_of(&info("app"), Some(&with_desktop)), PackageKind::App);
    let mut cli = info("app");
    cli.apps.push(AppInfo {
        name: "thing".into(),
        ..AppInfo::default()
    });
    assert_eq!(kind_of(&cli, Some(&cli)), PackageKind::Package);
    assert_eq!(kind_of(&info("base"), None), PackageKind::Runtime);
    assert_eq!(kind_of(&info("os"), None), PackageKind::Runtime);
    assert_eq!(kind_of(&info("snapd"), None), PackageKind::Runtime);
    assert_eq!(kind_of(&info("kernel"), None), PackageKind::Package);
}

#[test]
fn channels_are_written_in_full() {
    assert_eq!(full_channel("stable").as_deref(), Some("latest/stable"));
    assert_eq!(full_channel("latest/edge").as_deref(), Some("latest/edge"));
    assert_eq!(full_channel("esr/stable").as_deref(), Some("esr/stable"));
    assert_eq!(full_channel(""), None);
}

#[test]
fn a_store_record_with_an_installed_one_becomes_a_package() {
    let mut remote = info("app");
    remote.title = "Thing".into();
    remote.summary = "  Does things  ".into();
    remote.version = "2.0".into();
    remote.channel = "stable".into();
    remote.confinement = "classic".into();
    remote.download_size = 1234;
    remote.store_url = "https://snapcraft.io/thing".into();
    remote.publisher = Some(Publisher {
        id: "p1".into(),
        username: "acme".into(),
        display_name: "ACME".into(),
        validation: "verified".into(),
    });
    remote.media.push(Media {
        kind: "screenshot".into(),
        url: "https://x/s1.png".into(),
        width: Some(800),
        height: Some(0),
    });
    remote.media.push(Media {
        kind: "banner".into(),
        url: "https://x/b.png".into(),
        ..Media::default()
    });
    remote.media.push(Media {
        kind: "icon".into(),
        url: "https://x/i.png".into(),
        ..Media::default()
    });
    let mut local = info("app");
    local.version = "1.9".into();
    local.tracking_channel = "latest/candidate".into();
    local.revision = "42".into();
    local.install_date = "1970-01-01T00:01:40Z".into();
    local.installed_size = 99;
    local.common_ids.push("  ".into());
    local.apps.push(AppInfo {
        name: "thing".into(),
        common_id: "io.acme.Thing".into(),
        ..AppInfo::default()
    });
    let p = to_package(&remote, Some(&local), None);
    assert_eq!(p.source, SourceKind::Snap);
    assert_eq!(p.id, "thing");
    assert_eq!(p.name, "Thing");
    assert_eq!(p.kind, PackageKind::App);
    assert_eq!(p.summary.as_deref(), Some("Does things"));
    assert_eq!(p.version.as_deref(), Some("2.0"));
    assert!(p.installed);
    assert_eq!(p.installed_version.as_deref(), Some("1.9"));
    assert_eq!(p.repo.as_deref(), Some("latest/candidate"));
    assert_eq!(p.developer.as_deref(), Some("ACME"));
    assert_eq!(p.updated, Some(100));
    assert_eq!(p.download_size, Some(1234));
    assert_eq!(p.installed_size, Some(99));
    assert_eq!(p.icon, Some(Picture::Url("https://x/i.png".into())));
    assert_eq!(p.screenshots.len(), 2);
    assert_eq!(p.screenshots[0].image, Picture::Url("https://x/b.png".into()));
    assert_eq!(p.screenshots[1].width, Some(800));
    assert_eq!(p.screenshots[1].height, None);
    assert_eq!(p.appstream_id.as_deref(), Some("io.acme.Thing"));
    assert!(!p.sandboxed);
    let facts: Vec<(&str, &str)> = p
        .facts
        .iter()
        .map(|(k, v)| (k.as_str(), v.as_str()))
        .collect();
    assert_eq!(
        facts,
        [
            ("Publisher", "ACME (verified)"),
            ("Channel", "latest/candidate"),
            ("Revision", "42"),
            ("Confinement", "classic"),
            ("Store page", "https://snapcraft.io/thing"),
        ]
    );
}

#[test]
fn an_icon_snapd_serves_is_the_file_found_for_it() {
    let mut local = info("app");
    local.icon = "/v2/icons/thing/icon".into();
    let p = to_package(&local, Some(&local), Some("/snap/thing/current/meta/gui/icon.png".into()));
    assert_eq!(
        p.icon,
        Some(Picture::File("/snap/thing/current/meta/gui/icon.png".into()))
    );
    assert!(p.sandboxed);
    assert_eq!(p.name, "thing");
    let p = to_package(&local, Some(&local), None);
    assert_eq!(p.icon, None);
    let dirs = vec!["/snap".to_string(), "/var/lib/snapd/snap/".to_string()];
    assert_eq!(
        icon_candidates("thing", &dirs),
        [
            "/snap/thing/current/meta/gui/icon.png",
            "/snap/thing/current/meta/gui/icon.svg",
            "/snap/thing/current/meta/gui/icon.jpg",
            "/var/lib/snapd/snap/thing/current/meta/gui/icon.png",
            "/var/lib/snapd/snap/thing/current/meta/gui/icon.svg",
            "/var/lib/snapd/snap/thing/current/meta/gui/icon.jpg",
        ]
    );
}

#[test]
fn api_errors_become_sentences() {
    let e = |kind: &str, message: &str| ApiError {
        kind: kind.into(),
        message: message.into(),
    };
    assert_eq!(
        api_sentence(&e("network-timeout", "x"), 400),
        "The Snap Store did not answer in time. Try again."
    );
    assert_eq!(
        api_sentence(&e("dns-failure", ""), 400),
        "The Snap Store could not be found on the network. Check the connection."
    );
    assert_eq!(
        api_sentence(&e("bad-query", "bad query..."), 400),
        "The Snap Store did not accept that search: bad query."
    );
    assert_eq!(
        api_sentence(&e("", ""), 503),
        "snapd answered 503 with no explanation."
    );
    assert_eq!(
        api_sentence(&e("snap-not-found", "snap not found."), 404),
        "snapd answered: snap not found."
    );
}

#[test]
fn plans_run_snap_with_the_right_words() {
    let pkg = |source, id: &str| PackageRef {
        source,
        id: id.into(),
    };
    let v = plan_for(&Op::Install { package: pkg(SourceKind::Snap, "code") }, true).unwrap();
    assert_eq!(v.len(), 1);
    assert_eq!(v[0].command.program, "snap");
    assert_eq!(v[0].command.args, ["install", "code", "--classic"]);
    assert_eq!(v[0].title, "Installing code from the Snap Store");
    assert!(v[0].needs_root);
    assert_eq!(v[0].weight, 6);
    let v = plan_for(&Op::Install { package: pkg(SourceKind::Snap, "hello") }, false).unwrap();
    assert_eq!(v[0].command.args, ["install", "hello"]);
    let v = plan_for(&Op::Remove { package: pkg(SourceKind::Snap, "hello") }, false).unwrap();
    assert_eq!(v[0].command.args, ["remove", "hello"]);
    assert_eq!(v[0].weight, 2);
    let v = plan_for(&Op::UpdateAll { source: SourceKind::Snap }, false).unwrap();
    assert_eq!(v[0].command.args, ["refresh"]);
    assert_eq!(v[0].title, "Updating every snap");
    assert!(plan_for(&Op::Refresh { source: SourceKind::Snap }, false).unwrap().is_empty());
    let e = plan_for(&Op::Remove { package: pkg(SourceKind::Flatpak, "org.x.Y") }, false).unwrap_err();
    assert_eq!(e.message, "org.x.Y is a Flatpak package, not a snap.");
}

#[test]
fn the_status_says_why_snapd_cannot_be_used() {
    let s = status_for(Presence::Absent, true, None);
    assert!(!s.available);
    assert_eq!(
        s.reason.as_deref(),
        Some("snapd is not installed. Install the snapd package to search the Snap Store. On Arch it is the snapd package in the AUR.")
    );
    let s = status_for(Presence::Absent, false, None);
    assert_eq!(
        s.reason.as_deref(),
        Some("snapd is not installed. Install the snapd package to search the Snap Store.")
    );
    let s = status_for(Presence::ProgramOnly, true, None);
    assert!(s.reason.unwrap().starts_with("snapd is installed but not running."));
    let info = SnapdInfo {
        version: "2.63".into(),
        locations: Locations {
            snap_mount_dir: "/var/lib/snapd/snap".into(),
        },
    };
    let s = status_for(Presence::Socket, true, Some(&Ok(info)));
    assert!(s.available);
    assert_eq!(s.detail.as_deref(), Some("snapd 2.63"));
}

#[test]
fn snapd_s_mount_directory_goes_first_once() {
    let mut dirs = vec!["/snap".to_string(), "/var/lib/snapd/snap".to_string()];
    put_mount_dir_first(&mut dirs, "/var/lib/snapd/snap");
    assert_eq!(dirs, ["/var/lib/snapd/snap", "/snap"]);
    put_mount_dir_first(&mut dirs, "  ");
    assert_eq!(dirs, ["/var/lib/snapd/snap", "/snap"]);
}

#[test]
fn details_fall_back_to_the_installed_record() {
    let d = details_from("thing", Some(info("app")), Ok(None)).ok().unwrap();
    assert!(matches!(d, Details::Installed { .. }));
    let e = details_from("thing", None, Ok(None)).err().unwrap();
    assert_eq!(e.message, "thing is not in the Snap Store and is not installed.");
    let d = details_from("thing", None, Ok(Some(info("app")))).ok().unwrap();
    assert!(matches!(d, Details::Store { installed: None, .. }));
}

#[test]
fn each_connection_failure_says_what_to_do() {
    let s = "/run/snapd.socket";
    assert_eq!(
        connect_failure(s, ConnectProblem::Refused),
        "snapd is not running. Start it with systemctl enable --now snapd.socket."
    );
    let missing = connect_failure(s, ConnectProblem::NotFound);
    assert!(missing.contains("is missing"), "{missing}");
    assert_eq!(
        missing,
        "snapd's socket /run/snapd.socket is missing. Install snapd and start it with systemctl enable --now snapd.socket."
    );
    assert_eq!(
        connect_failure(s, ConnectProblem::PermissionDenied),
        "snapd's socket /run/snapd.socket does not allow this user to connect. Check its permissions."
    );
    assert_eq!(
        connect_failure(s, ConnectProblem::Other("Connection reset by peer".to_string())),
        "Could not connect to snapd at /run/snapd.socket: Connection reset by peer."
    );
}

#[test]
fn a_refreshable_snap_is_an_update_from_the_installed_version() {
    let mut remote = SnapInfo::default();
    remote.name = "firefox".to_string();
    remote.title = "Firefox".to_string();
    remote.version = "131.0".to_string();
    remote.download_size = 1000;
    let mut local = SnapInfo::default();
    local.name = "firefox".to_string();
    local.version = " 130.0 ".to_string();
    let u = update_of(&remote, Some(&local), None);
    assert_eq!(u.package.id, "firefox");
    assert_eq!(u.name, "Firefox");
    assert_eq!(u.from.as_deref(), Some("130.0"));
    assert_eq!(u.to, "131.0");
    assert_eq!(u.download_size, Some(1000));
    assert!(!u.is_self);
    let fresh = update_of(&remote, None, None);
    assert_eq!(fresh.from, None);
}

#[test]
fn a_search_path_trims_and_encodes_the_query() {
    assert_eq!(find_path("  visual studio code "), Some("/v2/find?q=visual%20studio%20code".to_string()));
    assert_eq!(find_path("firefox"), Some("/v2/find?q=firefox".to_string()));
    assert_eq!(find_path("   "), None);
    assert_eq!(find_path(""), None);
}
