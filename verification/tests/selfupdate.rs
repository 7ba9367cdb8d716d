use bap_core::model::SourceKind;
use bap_core::release::Release;
use bap_core::remedy::{Installation, Installer, Remedy};
use bap_core::selfupdate::{assemble, download_dir, plan};
use bap_core::version::Version;

#[test]
fn the_download_directory_is_the_clients() {
    let cache = directories::ProjectDirs::from("io.github", "spillebulle", "bap-store")
        .map(|d| d.cache_dir().display().to_string())
        .unwrap_or_else(|| "/tmp/.cache/bap-store".to_string());
    let dir = download_dir(&cache);
    assert!(dir.ends_with("http/downloads"), "{dir}");
    assert!(dir.starts_with('/'), "{dir}");
}

#[test]
fn an_asset_is_downloaded_then_installed_without_prompts() {
    let remedy = Remedy::InstallAsset {
        asset: "bap-store_1.2.0_amd64.deb".into(),
        url: "https://example.org/bap-store_1.2.0_amd64.deb".into(),
        installer: Installer::DpkgI,
        sentence: "Install it.".into(),
    };
    let steps = plan(&remedy, "/home/me/.cache/bap-store/http/downloads").unwrap();
    assert_eq!(steps.len(), 2);
    assert_eq!(steps[0].command.program, "curl");
    assert_eq!(
        steps[0].command.args,
        [
            "-L",
            "--fail",
            "--create-dirs",
            "-o",
            "/home/me/.cache/bap-store/http/downloads/bap-store_1.2.0_amd64.deb",
            "https://example.org/bap-store_1.2.0_amd64.deb",
        ]
    );
    assert_eq!(steps[0].title, "Downloading bap-store_1.2.0_amd64.deb");
    assert!(!steps[0].needs_root);
    assert_eq!(steps[1].source, SourceKind::Apt);
    assert_eq!(steps[1].command.program, "apt-get");
    assert_eq!(
        steps[1].command.env,
        [("DEBIAN_FRONTEND".to_string(), "noninteractive".to_string())]
    );
    assert_eq!(steps[1].title, "Installing bap-store_1.2.0_amd64.deb with apt");
    assert!(steps[1].needs_root);
}

#[test]
fn a_sentence_remedy_has_no_steps() {
    let remedy = Remedy::Sentence {
        sentence: "Get it from the releases page.".into(),
    };
    let e = plan(&remedy, "/tmp").unwrap_err();
    assert_eq!(e.message, "Get it from the releases page.");
    let replace = Remedy::ReplaceFile {
        path: "/opt/bap-store/bap-store".into(),
        asset: "bap-store-x86_64".into(),
        url: "https://example.org/a".into(),
        sentence: "Replace it.".into(),
    };
    let steps = plan(&replace, "/tmp/d/").unwrap();
    assert_eq!(
        steps[1].command.args,
        ["-m755", "/tmp/d/bap-store-x86_64", "/opt/bap-store/bap-store"]
    );
    assert_eq!(steps[1].title, "Putting bap-store-x86_64 in place of /opt/bap-store/bap-store");
    assert!(!steps[1].needs_root);
}

fn release(v: &str) -> Release {
    Release {
        version: Version::parse(v).unwrap(),
        tag: format!("v{v}"),
        name: format!("BAP Store {v}"),
        notes: "Notes.".into(),
        published: Some(1),
        url: "https://example.org/release".into(),
        assets: Vec::new(),
    }
}

#[test]
fn a_newer_release_comes_with_a_remedy_and_an_older_one_without() {
    let current = Version::parse("1.0.0").unwrap();
    let newer = release("1.2.0");
    let r = assemble(&current, Some(&newer), Installation::Unknown, "x86_64", None);
    assert_eq!(r.current, "1.0.0");
    let latest = r.latest.unwrap();
    assert!(latest.newer);
    assert_eq!(latest.version, "1.2.0");
    assert!(r.remedy.is_some());

    let same = release("1.0.0");
    let r = assemble(&current, Some(&same), Installation::Unknown, "x86_64", None);
    assert!(!r.latest.unwrap().newer);
    assert!(r.remedy.is_none());

    let r = assemble(&current, None, Installation::Portable, "x86_64", Some("GitHub could not be reached.".into()));
    assert!(r.latest.is_none() && r.remedy.is_none());
    assert_eq!(r.error.as_deref(), Some("GitHub could not be reached."));
}
