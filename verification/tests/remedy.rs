use bap_core::model::SourceKind;
use bap_core::release::Asset;
use bap_core::remedy::{find, remedy, Arch, Format, Installation, Installer, Remedy};
use bap_core::version::Version;

fn v(text: &str) -> Version {
    Version::parse(text).expect("a version")
}

fn asset(name: &str) -> Asset {
    Asset {
        name: name.to_string(),
        browser_download_url: format!("https://github.com/x/{name}"),
        size: 1,
    }
}

#[test]
fn the_documented_names_match_their_own_patterns() {
    for format in [
        Format::Deb,
        Format::Rpm,
        Format::PacmanPackage,
        Format::AppImage,
        Format::Flatpak,
    ] {
        for arch in [Arch::X86_64, Arch::Aarch64] {
            let name = format.name(&v("0.2.0"), arch);
            assert!(format.matches(arch, &name), "{format:?} {arch:?}: {name}");
            let other = match arch {
                Arch::X86_64 => Arch::Aarch64,
                Arch::Aarch64 => Arch::X86_64,
            };
            assert!(
                !format.matches(other, &name),
                "{format:?} {arch:?} matched the other architecture"
            );
        }
    }
}

#[test]
fn a_helper_package_is_not_the_store() {
    assert!(!Format::Deb.matches(Arch::X86_64, "bap-helper_0.2.0_amd64.deb"));
    assert!(!Format::PacmanPackage.matches(Arch::X86_64, "bap-store-0.2.0-1-x86_64.pkg.tar.zst"));
    assert!(!Format::AppImage.matches(Arch::X86_64, "bap-store-0.2.0-x86_64.AppImage"));
}

#[test]
fn the_architecture_spellings_are_the_managers_own() {
    assert_eq!(Arch::parse("x86_64"), Some(Arch::X86_64));
    assert_eq!(Arch::parse("amd64"), Some(Arch::X86_64));
    assert_eq!(Arch::parse("aarch64"), Some(Arch::Aarch64));
    assert_eq!(Arch::parse("arm64"), Some(Arch::Aarch64));
    assert_eq!(Arch::parse("riscv64"), None);
    assert_eq!(Arch::parse(""), None);
}

#[test]
fn an_asset_on_plain_http_is_treated_as_absent() {
    let assets = [Asset {
        name: "bap-store_0.2.0_amd64.deb".into(),
        browser_download_url: "http://github.com/x/bap-store_0.2.0_amd64.deb".into(),
        size: 1,
    }];
    assert_eq!(find(&assets, Format::Deb, Some(Arch::X86_64)), None);
    let r = remedy(
        &Installation::Dpkg { archive: false },
        &v("0.2.0"),
        "x86_64",
        &assets,
    );
    assert!(matches!(r, Remedy::Sentence { .. }), "{r:?}");
    assert!(!r.sentence().contains(".deb"), "{}", r.sentence());
}

#[test]
fn each_installation_gets_its_own_remedy() {
    let latest = v("0.2.0");
    let assets = vec![
        asset("bap-store_0.2.0_amd64.deb"),
        asset("bap-store-0.2.0-1.x86_64.rpm"),
        asset("bap-store-bin-0.2.0-1-x86_64.pkg.tar.zst"),
        asset("BAP-Store-0.2.0-x86_64.AppImage"),
        asset("bap-store-0.2.0-x86_64.flatpak"),
    ];
    let aur = remedy(
        &Installation::Pacman { package: "bap-store".to_string() },
        &latest,
        "x86_64",
        &assets,
    );
    assert_eq!(
        aur,
        Remedy::UpdatesPage {
            source: SourceKind::Aur,
            package: "bap-store".to_string(),
            sentence: "BAP Store 0.2.0 is in the AUR; it is in your Updates.".to_string(),
        }
    );
    let bin = remedy(
        &Installation::Pacman { package: "bap-store-bin".to_string() },
        &latest,
        "x86_64",
        &assets,
    );
    assert_eq!(bin.asset(), Some("bap-store-bin-0.2.0-1-x86_64.pkg.tar.zst"));
    assert!(bin.is_actionable());
    assert!(matches!(bin, Remedy::InstallAsset { installer: Installer::PacmanU, .. }));
    let apt = remedy(&Installation::Dpkg { archive: true }, &latest, "x86_64", &assets);
    assert_eq!(
        apt.sentence(),
        "BAP Store 0.2.0 is in the Spillebulle archive; it is in your Updates."
    );
    assert!(!apt.is_actionable());
    let rpm = remedy(&Installation::Rpm { archive: false }, &latest, "amd64", &assets);
    assert_eq!(rpm.asset(), Some("bap-store-0.2.0-1.x86_64.rpm"));
    let image = remedy(
        &Installation::AppImage { path: "/home/me/BAP.AppImage".to_string() },
        &latest,
        "x86_64",
        &assets,
    );
    assert_eq!(
        image.sentence(),
        "BAP Store will download BAP-Store-0.2.0-x86_64.AppImage and put it in place of /home/me/BAP.AppImage."
    );
    let flatpak = remedy(&Installation::Flatpak, &latest, "riscv64", &assets);
    assert_eq!(
        flatpak.sentence(),
        "This copy runs as a Flatpak bundle with no remote behind it, and BAP Store 0.2.0 has no Flatpak bundle for riscv64 on the releases page, so this copy stays as it is until one is published."
    );
    let portable = remedy(&Installation::Portable, &latest, " ", &[]);
    assert_eq!(
        portable.sentence(),
        "BAP Store publishes no archive for a copy like this one, and 0.2.0 has no AppImage for this machine on the releases page, so this copy stays as it is until one is published."
    );
    let deb = remedy(&Installation::Dpkg { archive: false }, &latest, "arm64", &assets);
    assert_eq!(
        deb.sentence(),
        "BAP Store 0.2.0 has no Debian package for arm64 on the releases page, so this copy stays as it is until one is published."
    );
    let unknown = remedy(&Installation::Unknown, &latest, "x86_64", &assets);
    assert!(unknown.asset().is_none());
}
