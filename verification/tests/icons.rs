use bap_core::appstream::reader::{pick_icon, IconFiles};
use bap_core::model::Picture;

const ICONS: &str = "/srv/catalogue/icons";

fn on_disk(dirs: &[&str], files: &[&str]) -> IconFiles {
    IconFiles::new(
        ICONS.to_string(),
        dirs.iter().map(|d| d.to_string()).collect(),
        files.iter().map(|f| f.to_string()).collect(),
    )
}

fn file(rel: &str) -> Option<Picture> {
    Some(Picture::File(format!("{ICONS}/{rel}")))
}

fn declared(n: &str) -> Vec<(u32, String)> {
    vec![(48, n.to_string()), (64, n.to_string()), (128, n.to_string())]
}

#[test]
fn the_origin_directory_is_used_when_it_exists_and_flat_otherwise() {
    let files = on_disk(
        &["archlinux-arch-extra", "64x64"],
        &["archlinux-arch-extra/64x64/a.png", "64x64/b.png"],
    );
    let a = vec![(64, "a.png".to_string())];
    let b = vec![(64, "b.png".to_string())];
    assert_eq!(
        pick_icon(&a, &None, Some(&files), "archlinux-arch-extra"),
        file("archlinux-arch-extra/64x64/a.png")
    );
    assert_eq!(pick_icon(&b, &None, Some(&files), "archlinux-arch-extra"), None);
    assert_eq!(pick_icon(&b, &None, Some(&files), "flathub"), file("64x64/b.png"));
    assert_eq!(pick_icon(&a, &None, Some(&files), "flathub"), None);
    assert_eq!(pick_icon(&b, &None, None, "flathub"), None);
}

#[test]
fn the_largest_existing_size_wins_and_a_missing_file_is_none() {
    let files = on_disk(
        &["48x48", "64x64"],
        &["48x48/x.png", "64x64/x.png", "48x48/y.png"],
    );
    assert_eq!(
        pick_icon(&declared("x.png"), &None, Some(&files), "flathub"),
        file("64x64/x.png")
    );
    assert_eq!(
        pick_icon(&declared("y.png"), &None, Some(&files), "flathub"),
        file("48x48/y.png")
    );
    assert_eq!(pick_icon(&declared("z.png"), &None, Some(&files), "flathub"), None);
    assert_eq!(pick_icon(&Vec::new(), &None, Some(&files), "flathub"), None);
}

#[test]
fn different_names_per_size_are_tried_biggest_declared_first() {
    let files = on_disk(&["128x128"], &["128x128/big.png", "128x128/small.png"]);
    let declared = vec![(48, "small.png".to_string()), (128, "big.png".to_string())];
    assert_eq!(
        pick_icon(&declared, &None, Some(&files), ""),
        file("128x128/big.png")
    );
}

#[test]
fn names_with_directories_are_never_looked_up() {
    let files = on_disk(&["64x64"], &["64x64/x.png", "64x64/../64x64/x.png"]);
    assert_eq!(
        pick_icon(&vec![(64, "../64x64/x.png".to_string())], &None, Some(&files), ""),
        None
    );
    assert_eq!(
        pick_icon(&vec![(64, "/etc/passwd".to_string())], &None, Some(&files), ""),
        None
    );
    assert_eq!(pick_icon(&vec![(64, "".to_string())], &None, Some(&files), ""), None);
    assert_eq!(
        pick_icon(&vec![(64, "x.png".to_string())], &None, Some(&files), ""),
        file("64x64/x.png")
    );
}

#[test]
fn pick_falls_back_to_the_remote_url_then_to_nothing() {
    let files = on_disk(&["48x48"], &["48x48/x.png"]);
    let cached = vec![(48, "x.png".to_string())];
    let remote = Some((64, "https://e/x.png".to_string()));
    assert_eq!(pick_icon(&cached, &remote, Some(&files), ""), file("48x48/x.png"));
    let missing = vec![(48, "gone.png".to_string())];
    assert_eq!(
        pick_icon(&missing, &remote, Some(&files), ""),
        Some(Picture::Url("https://e/x.png".into()))
    );
    assert_eq!(pick_icon(&missing, &None, Some(&files), ""), None);
    assert_eq!(pick_icon(&cached, &None, None, ""), None);
}

#[test]
fn a_same_width_tie_keeps_the_first_declared_name() {
    let files = on_disk(&["64x64"], &["64x64/first.png", "64x64/second.png"]);
    let declared = vec![(64, "first.png".to_string()), (64, "second.png".to_string())];
    assert_eq!(
        pick_icon(&declared, &None, Some(&files), "o"),
        file("64x64/first.png")
    );
}
