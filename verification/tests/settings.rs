use bap_core::model::{Preferences, SourceKind};
use bap_core::settings::{
    parse, parse_sources, parse_split, render, AurHelper, FlatpakScope, Settings, Theme,
    UPDATE_CHECK_MAX, UPDATE_CHECK_MIN,
};

#[test]
fn the_defaults_enable_every_source_and_follow_the_desktop() {
    let s = Settings::default();
    assert_eq!(s.theme, Theme::System);
    assert_eq!(s.enabled_sources, SourceKind::all());
    assert!(!s.show_packages);
    assert_eq!(s.aur_helper, AurHelper::Auto);
    assert_eq!(s.flatpak_scope, FlatpakScope::System);
    assert!(s.check_updates_on_start);
    assert!(s.self_update_check);
    assert_eq!(s.update_check_minutes, 60);
    assert!(s.split.is_empty());
}

#[test]
fn everything_survives_a_round_trip() {
    let settings = Settings {
        theme: Theme::Light,
        enabled_sources: vec![SourceKind::Pacman, SourceKind::Aur, SourceKind::Github],
        show_packages: true,
        aur_helper: AurHelper::Paru,
        flatpak_scope: FlatpakScope::User,
        check_updates_on_start: false,
        self_update_check: false,
        update_check_minutes: 240,
        split: vec![
            "pacman:steam".into(),
            "flatpak:flathub/app/com.valvesoftware.Steam/x86_64/stable".into(),
        ],
        unknown: vec![("gizmo".into(), "12".into())],
    };
    assert_eq!(parse(&render(&settings)), settings);
}

#[test]
fn an_unknown_key_is_kept_rather_than_refused() {
    let s = parse("version = 9\ngizmo = 12\nshow_packages = true\n");
    assert!(s.show_packages);
    assert_eq!(s.unknown, vec![("gizmo".to_string(), "12".to_string())]);
    assert!(render(&s).contains("gizmo = 12\n"));
}

#[test]
fn a_bad_value_leaves_the_default() {
    let s = parse(
        "theme = purple\naur_helper = pacaur\nflatpak_scope = everywhere\nshow_packages = maybe\n",
    );
    assert_eq!(s.theme, Theme::System);
    assert_eq!(s.aur_helper, AurHelper::Auto);
    assert_eq!(s.flatpak_scope, FlatpakScope::System);
    assert!(!s.show_packages);
    assert!(
        s.unknown.is_empty(),
        "a known key with a bad value is not an unknown key"
    );
}

#[test]
fn a_figure_out_of_range_is_clamped_rather_than_dropped() {
    assert_eq!(
        parse("update_check_minutes = 1\n").update_check_minutes,
        UPDATE_CHECK_MIN
    );
    assert_eq!(
        parse("update_check_minutes = 999999\n").update_check_minutes,
        UPDATE_CHECK_MAX
    );
    assert_eq!(parse("update_check_minutes = soon\n").update_check_minutes, 60);
}

#[test]
fn the_source_list_is_tolerant() {
    assert_eq!(
        parse("enabled_sources = aur, pacman ,pacman,Flatpak\n").enabled_sources,
        vec![SourceKind::Pacman, SourceKind::Aur, SourceKind::Flatpak],
        "trimmed, deduplicated, interface order"
    );
    assert_eq!(
        parse("enabled_sources = \n").enabled_sources,
        Vec::<SourceKind>::new(),
        "empty is a choice"
    );
    assert_eq!(
        parse("enabled_sources = nix,portage\n").enabled_sources,
        SourceKind::all(),
        "nothing recognisable is a damaged line"
    );
}

#[test]
fn the_split_list_drops_what_cannot_match() {
    let s = parse("split = pacman:steam, nix:foo, aur:, pacman:steam, snap:spotify\n");
    assert_eq!(
        s.split,
        vec!["pacman:steam".to_string(), "snap:spotify".to_string()]
    );
}

#[test]
fn adding_a_split_is_idempotent() {
    let mut s = Settings::default();
    s.add_split(SourceKind::Aur, "steam-git");
    s.add_split(SourceKind::Aur, "steam-git");
    assert_eq!(s.split, vec!["aur:steam-git".to_string()]);
}

#[test]
fn a_damaged_file_is_the_defaults() {
    assert_eq!(parse("this is not a settings file\n\n#\n"), Settings::default());
    assert_eq!(parse(""), Settings::default());
}

#[test]
fn preferences_carry_what_the_sources_act_on() {
    let mut s = Settings::default();
    assert_eq!(s.preferences(), Preferences::default());
    s.flatpak_scope = FlatpakScope::User;
    s.aur_helper = AurHelper::Yay;
    let p = s.preferences();
    assert!(p.flatpak_user);
    assert_eq!(p.aur_helper.as_deref(), Some("yay"));
    s.aur_helper = AurHelper::Auto;
    assert_eq!(
        s.preferences().aur_helper,
        None,
        "automatic stays a lazy look on PATH"
    );
}

#[test]
fn the_whole_file_is_written_in_a_fixed_order() {
    let mut s = Settings::default();
    s.unknown.push(("later".to_string(), "x".to_string()));
    assert_eq!(
        render(&s),
        "version = 1\ntheme = system\nenabled_sources = pacman,aur,flatpak,snap,apt,dnf,github,fwupd,chwd\nshow_packages = false\naur_helper = auto\nflatpak_scope = system\ncheck_updates_on_start = true\nself_update_check = true\nupdate_check_minutes = 60\nsplit = \nlater = x\n"
    );
    assert_eq!(parse("THEME = dark\n").unknown, vec![("THEME".to_string(), "dark".to_string())]);
    assert_eq!(parse("theme = DARK\r\n").theme, Theme::Dark);
    assert_eq!(parse("show_packages = ON\n").show_packages, true);
    assert_eq!(parse("update_check_minutes = +30\n").update_check_minutes, 30);
    assert_eq!(parse_sources("Snap,SNAP"), Some(vec![SourceKind::Snap]));
    assert_eq!(parse_sources("nothing"), None);
    assert_eq!(parse_split(" a:b , snap:x ,snap:x"), vec!["snap:x".to_string()]);
    assert!(s.is_enabled(SourceKind::Chwd));
    assert_eq!(Theme::parse("light"), Some(Theme::Light));
    assert_eq!(AurHelper::parse("builtin"), Some(AurHelper::Builtin));
    assert_eq!(FlatpakScope::parse("User"), None);
    assert_eq!(SourceKind::parse("github"), Some(SourceKind::Github));
    assert_eq!(SourceKind::Github.label(), "GitHub");
}
