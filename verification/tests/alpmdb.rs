use std::io::Write;
use bap_core::alpmdb::{repos, Desc, LocalDb, SyncDb};

const STEAM: &str = "%FILENAME%\nsteam-1.0.0.87-3-x86_64.pkg.tar.zst\n\n%NAME%\nsteam\n\n%BASE%\nsteam\n\n%VERSION%\n1.0.0.87-3\n\n%DESC%\nValve's digital software delivery system\n\n%CSIZE%\n20371240\n\n%ISIZE%\n20475439\n\n%URL%\nhttps://steampowered.com/\n\n%LICENSE%\nLicenseRef-steam-subscriber-agreement\n\n%ARCH%\nx86_64\n\n%BUILDDATE%\n1785004799\n\n%DEPENDS%\nbash\ncoreutils\n";

#[test]
fn a_desc_file_reads_back() {
    let d = Desc::parse(STEAM);
    assert_eq!(d.name(), "steam");
    assert_eq!(d.version(), "1.0.0.87-3");
    assert_eq!(d.u64("CSIZE"), Some(20_371_240));
    assert_eq!(d.all("DEPENDS"), ["bash", "coreutils"]);
    assert_eq!(d.first("MISSING"), None);
    assert!(d.all("MISSING").is_empty());
}

#[test]
fn repos_come_out_in_pacman_conf_order() {
    let conf = "[options]\nHoldPkg = pacman\n\n[cachyos-v3]\nInclude = /etc/pacman.d/x\n[core]\nInclude = /etc/pacman.d/mirrorlist\n#[testing]\n[extra]\nInclude = /etc/pacman.d/mirrorlist\n";
    let r = repos(conf, "/var/lib/pacman/sync");
    let names: Vec<&str> = r.iter().map(|(n, _)| n.as_str()).collect();
    assert_eq!(names, ["cachyos-v3", "core", "extra"]);
    assert_eq!(r[1].1, "/var/lib/pacman/sync/core.db");
}

#[test]
fn repeated_keys_gather_and_stray_values_are_dropped() {
    let d = Desc::parse("stray\n%A%\n1\n%B%\nx\n%A%\n2\n%%\nempty key\n");
    assert_eq!(d.all("A"), ["1", "2"]);
    assert_eq!(d.all("B"), ["x"]);
    assert_eq!(d.all(""), ["empty key"]);
    assert_eq!(d.i64("A"), Some(1));
    assert_eq!(d.u64("B"), None);
    assert_eq!(d.name(), "");
    let local = LocalDb {
        packages: vec![Desc::parse("%NAME%\na\n"), Desc::parse(STEAM)],
    };
    assert_eq!(local.get("steam").map(|d| d.version()), Some("1.0.0.87-3"));
    assert!(local.get("b").is_none());
    let sync = SyncDb {
        repo: "core".to_string(),
        packages: vec![Desc::parse("%NAME%\na\n%VERSION%\n2\n")],
    };
    assert_eq!(sync.get("a").map(|d| d.version()), Some("2"));
    assert_eq!(LocalDb::DEFAULT_PATH, "/var/lib/pacman/local");
}

fn tar_of(entries: &[(&str, &str)]) -> Vec<u8> {
    let mut builder = tar::Builder::new(Vec::new());
    for (path, text) in entries {
        let mut header = tar::Header::new_gnu();
        header.set_size(text.len() as u64);
        header.set_mode(0o644);
        header.set_cksum();
        builder.append_data(&mut header, path, text.as_bytes()).unwrap();
    }
    builder.into_inner().unwrap()
}

#[test]
fn a_plain_tar_is_a_database_too() {
    let bytes = tar_of(&[("steam-1.0.0.87-3/desc", STEAM)]);
    let db = SyncDb::from_bytes("multilib", &bytes).unwrap();
    assert_eq!(db.get("steam").unwrap().version(), "1.0.0.87-3");
    assert_eq!(db.repo, "multilib");
}

#[test]
fn a_gzip_database_reads_the_same_and_only_desc_files_count() {
    let bytes = tar_of(&[
        ("steam-1.0.0.87-3/desc", STEAM),
        ("steam-1.0.0.87-3/files", "%FILES%\nusr/bin/steam\n"),
    ]);
    let mut encoder = flate2::write::GzEncoder::new(Vec::new(), flate2::Compression::fast());
    encoder.write_all(&bytes).unwrap();
    let gz = encoder.finish().unwrap();
    let db = SyncDb::from_bytes("multilib", &gz).unwrap();
    assert_eq!(db.packages.len(), 1);
    assert_eq!(db.get("steam").unwrap().name(), "steam");
}

#[test]
fn broken_databases_say_which_stage_failed() {
    let bad_gzip = SyncDb::from_bytes("core", &[0x1f, 0x8b, 0x08, 0x00, 0xff]).unwrap_err();
    assert!(bad_gzip.message.starts_with("gzip: "), "{}", bad_gzip.message);
    let bad_zstd = SyncDb::from_bytes("core", &[0x28, 0xb5, 0x2f, 0xfd, 0x00]).unwrap_err();
    assert!(bad_zstd.message.starts_with("zstd: "), "{}", bad_zstd.message);
    let not_text = tar_of(&[("x-1/desc", "%NAME%\nx\n")]);
    let mut broken = not_text.clone();
    let at = broken.windows(7).position(|w| w == b"%NAME%\n").unwrap();
    broken[at] = 0xff;
    let e = SyncDb::from_bytes("core", &broken).unwrap_err();
    assert_eq!(e.message, "core.db: stream did not contain valid UTF-8");

}

#[test]
fn a_later_desc_of_the_same_name_replaces_the_earlier_and_nameless_ones_are_dropped() {
    let old = "%NAME%\nsteam\n\n%VERSION%\n1\n";
    let new = "%NAME%\nsteam\n\n%VERSION%\n2\n";
    let db = LocalDb::from_texts(&vec![old.to_string(), "%DESC%\nno name\n".to_string(), new.to_string()]);
    assert_eq!(db.packages.len(), 1);
    assert_eq!(db.get("steam").unwrap().version(), "2");
}

#[test]
fn a_zstd_database_reads_the_same() {
    let bytes = tar_of(&[("steam-1.0.0.87-3/desc", STEAM)]);
    let zst = ruzstd::encoding::compress_to_vec(bytes.as_slice(), ruzstd::encoding::CompressionLevel::Fastest);
    assert_eq!(&zst[..4], &[0x28, 0xb5, 0x2f, 0xfd]);
    let db = SyncDb::from_bytes("extra", &zst).unwrap();
    assert_eq!(db.get("steam").unwrap().version(), "1.0.0.87-3");
    assert_eq!(db.repo, "extra");
}

#[test]
fn a_desc_with_crlf_line_ends_reads_as_with_lf() {
    let d = Desc::parse("%NAME%\r\nvim\r\n\r\n%DEPENDS%\r\nglibc\r\nacl\r\n");
    assert_eq!(d.first("NAME"), Some("vim"));
    assert_eq!(d.all("DEPENDS"), &["glibc".to_string(), "acl".to_string()]);
    let d = Desc::parse("%A%\r\nb");
    assert_eq!(d.all("A"), &["b".to_string()]);
}
