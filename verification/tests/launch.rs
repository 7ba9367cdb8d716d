use bap_core::launch::{choose_entry, command, entry_paths, listable_text, notice_for, sees, session_dirs, Launch};

const APP: &str = "[Desktop Entry]\nType=Application\nName=X\nExec=x %U\n";

#[test]
fn only_the_main_group_decides_whether_an_entry_is_listed() {
    assert!(listable_text(APP));
    assert!(!listable_text("[Desktop Entry]\nType=Link\n"));
    assert!(!listable_text(
        "[Desktop Entry]\nType=Application\nHidden=true\n"
    ));
    assert!(listable_text(
        "[Desktop Entry]\nType=Application\n\n[Desktop Action new]\nNoDisplay=true\n"
    ));
}

#[test]
fn the_session_s_directories_follow_the_specification_default() {
    let home = "/home/me/.local/share";
    let default = session_dirs(None, Some(home));
    assert_eq!(
        default,
        [
            "/usr/local/share/applications".to_string(),
            "/usr/share/applications".to_string(),
            "/home/me/.local/share/applications".to_string(),
        ]
    );
    assert_eq!(session_dirs(Some(""), None).len(), 2);
    let with_flatpak = session_dirs(Some("/var/lib/flatpak/exports/share/:/usr/share"), None);
    assert!(sees(
        &with_flatpak,
        "/var/lib/flatpak/exports/share/applications"
    ));
    assert!(!sees(
        &default,
        "/var/lib/flatpak/exports/share/applications"
    ));
}

#[test]
fn an_entry_opens_through_gio_and_a_command_as_itself() {
    let entry = Launch::Entry("/usr/share/applications/notepadqq.desktop".to_string());
    assert_eq!(entry.command().program, "gio");
    assert_eq!(
        entry.command().args,
        ["launch", "/usr/share/applications/notepadqq.desktop"]
    );
    assert_eq!(entry.describe(), "notepadqq.desktop");
    assert!(entry.returns_at_once());
    let run = Launch::Command(command("flatpak", &["run", "com.notepadqq.Notepadqq"]));
    assert_eq!(run.describe(), "flatpak run com.notepadqq.Notepadqq");
    assert!(!run.returns_at_once());
    assert_eq!(run.command().args, ["run", "com.notepadqq.Notepadqq"]);
}

#[test]
fn desktop_entries_are_picked_out_of_a_file_list() {
    let files: Vec<String> = [
        "usr/",
        "usr/bin/notepadqq",
        "usr/share/applications/notepadqq.desktop",
        " /usr/share/applications/other.desktop ",
        "usr/share/applications/",
        "usr/share/icons/hicolor/48x48/apps/notepadqq.png",
    ]
    .iter()
    .map(|s| s.to_string())
    .collect();
    assert_eq!(
        entry_paths(&files, "/root"),
        [
            "/root/usr/share/applications/notepadqq.desktop",
            "/root/usr/share/applications/other.desktop",
        ]
    );
}

#[test]
fn the_notice_speaks_only_of_unseen_directories_with_entries() {
    let exports = vec!["/var/lib/flatpak/exports/share/applications".to_string()];
    let without = session_dirs(Some("/usr/share"), None);
    let with = session_dirs(Some("/var/lib/flatpak/exports/share:/usr/share"), None);
    assert_eq!(notice_for("Flatpak", &exports, &vec![false], &without), None);
    let sentence = notice_for("Flatpak", &exports, &vec![true], &without).expect("unseen");
    assert!(sentence.starts_with("Flatpak applications are installed"));
    assert!(sentence.contains("Log out and back in once"));
    assert!(!sentence.contains('\u{2014}'));
    assert_eq!(notice_for("Flatpak", &exports, &vec![true], &with), None);
}

#[test]
fn the_listable_entry_named_after_the_package_is_chosen() {
    let d = "/tmp/entries";
    let entry = |name: &str, text: &str| (format!("{d}/{name}"), Some(text.to_string()));
    let all = vec![
        entry("emacsclient.desktop", APP),
        entry("emacs.desktop", APP),
        entry(
            "emacs-mail.desktop",
            "[Desktop Entry]\nType=Application\nNoDisplay=true\n",
        ),
    ];
    assert_eq!(
        choose_entry(all.clone(), &["emacs"]),
        Some(format!("{d}/emacs.desktop"))
    );
    assert_eq!(
        choose_entry(all.clone(), &["client"]),
        Some(format!("{d}/emacsclient.desktop")),
        "a contained name is the second choice"
    );
    assert_eq!(
        choose_entry(all, &["nothing"]),
        Some(format!("{d}/emacs.desktop")),
        "else the first listable entry by name"
    );
    assert_eq!(
        choose_entry(
            vec![entry(
                "emacs-mail.desktop",
                "[Desktop Entry]\nType=Application\nNoDisplay=true\n"
            )],
            &["emacs"]
        ),
        None
    );
}

#[test]
fn an_unreadable_entry_is_never_chosen_and_case_does_not_matter() {
    let entries = vec![
        ("/a/usr/share/applications/Gimp.desktop".to_string(), None),
        ("/a/usr/share/applications/gimp-2.10.desktop".to_string(), Some(APP.to_string())),
    ];
    assert_eq!(
        choose_entry(entries, &["GIMP"]),
        Some("/a/usr/share/applications/gimp-2.10.desktop".to_string())
    );
}

#[test]
fn path_order_goes_by_component_not_by_character() {
    let entries = vec![
        ("/r/usr/share/applications/a-b.desktop".to_string(), Some(APP.to_string())),
        ("/r/usr/share/applications/a/b.desktop".to_string(), Some(APP.to_string())),
    ];
    assert_eq!(
        choose_entry(entries, &[]),
        Some("/r/usr/share/applications/a/b.desktop".to_string())
    );
}
