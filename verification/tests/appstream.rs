use bap_core::appstream::{bundle_id, Catalogue, Component, Index};

fn component(id: &str, name: &str, component_type: &str) -> Component {
    Component {
        id: id.into(),
        name: name.into(),
        component_type: component_type.into(),
        is_app: matches!(
            component_type,
            "desktop-application" | "console-application" | "web-application"
        ),
        ..Default::default()
    }
}

fn fixture() -> Vec<Component> {
    let mut steam = component("com.valvesoftware.Steam", "Steam", "desktop-application");
    steam.pkgname = Some("steam".into());
    steam.summary = Some("Launcher for the Steam software distribution service".into());
    let mut proton = component(
        "com.valvesoftware.Steam.CompatibilityTool.Proton",
        "Proton",
        "addon",
    );
    proton.bundle =
        Some("app/com.valvesoftware.Steam.CompatibilityTool.Proton/x86_64/stable".into());
    let mut steamy = component(
        "io.example.Steamy",
        "Steamy Deck Tools",
        "desktop-application",
    );
    steamy.keywords = vec!["Steam".into(), "deck".into()];
    let mut lutris = component("net.lutris.Lutris", "Lutris", "desktop-application");
    lutris.summary = Some("Play games from Steam, GOG and more".into());
    let mut plugin = component("org.gimp.GIMP.plugin.gmic", "G'MIC", "addon");
    plugin.pkgname = Some("gimp".into());
    let mut gimp = component(
        "org.gimp.GIMP",
        "GNU Image Manipulation Program",
        "desktop-application",
    );
    gimp.pkgname = Some("gimp".into());
    gimp.bundle = Some("app/org.gimp.GIMP/x86_64/stable".into());
    let mut platform = component(
        "org.freedesktop.Platform",
        "Freedesktop Platform",
        "runtime",
    );
    platform.bundle = Some("runtime/org.freedesktop.Platform/x86_64/24.08".into());
    vec![steam, proton, steamy, lutris, plugin, gimp, platform]
}

#[test]
fn search_ranks_name_exact_prefix_contains_id_keyword_then_summary() {
    let components = fixture();
    let index = Index::build(&components);
    let ids: Vec<&str> = index
        .search(&components, "steam", 10)
        .into_iter()
        .map(|i| components[i].id.as_str())
        .collect();
    assert_eq!(
        ids,
        vec![
            "com.valvesoftware.Steam",
            "io.example.Steamy",
            "com.valvesoftware.Steam.CompatibilityTool.Proton",
            "net.lutris.Lutris",
        ]
    );
    let prefix: Vec<&str> = index
        .search(&components, "STEAMY", 10)
        .into_iter()
        .map(|i| components[i].id.as_str())
        .collect();
    assert_eq!(prefix, vec!["io.example.Steamy"]);
    let keyword: Vec<&str> = index
        .search(&components, "deck", 10)
        .into_iter()
        .map(|i| components[i].id.as_str())
        .collect();
    assert_eq!(keyword, vec!["io.example.Steamy"]);
}

#[test]
fn search_honours_the_limit_and_ignores_blank_queries() {
    let components = fixture();
    let index = Index::build(&components);
    assert_eq!(index.search(&components, "steam", 2).len(), 2);
    assert!(index.search(&components, "   ", 10).is_empty());
    assert!(index.search(&components, "steam", 0).is_empty());
    assert!(index.search(&components, "nothing-has-this", 10).is_empty());
}

#[test]
fn a_name_contains_match_outranks_an_id_match_and_apps_win_ties() {
    let components = fixture();
    let index = Index::build(&components);
    let ids: Vec<&str> = index
        .search(&components, "gimp", 10)
        .into_iter()
        .map(|i| components[i].id.as_str())
        .collect();
    assert_eq!(ids, vec!["org.gimp.GIMP", "org.gimp.GIMP.plugin.gmic"]);
    let ids: Vec<&str> = index
        .search(&components, "image", 10)
        .into_iter()
        .map(|i| components[i].id.as_str())
        .collect();
    assert_eq!(ids, vec!["org.gimp.GIMP"]);
}

#[test]
fn pkgname_prefers_the_desktop_application_then_the_first() {
    let components = fixture();
    let index = Index::build(&components);
    assert_eq!(
        index.by_pkgname("gimp").map(|i| components[i].id.as_str()),
        Some("org.gimp.GIMP")
    );
    assert_eq!(index.by_pkgname_all("gimp").len(), 2);
    assert_eq!(
        index.by_pkgname("steam").map(|i| components[i].id.as_str()),
        Some("com.valvesoftware.Steam")
    );
    assert_eq!(index.by_pkgname("nothing"), None);
    assert!(index.by_pkgname_all("nothing").is_empty());
    let two = vec![
        {
            let mut c = component("a.one", "One", "addon");
            c.pkgname = Some("p".into());
            c
        },
        {
            let mut c = component("a.two", "Two", "addon");
            c.pkgname = Some("p".into());
            c
        },
    ];
    let index = Index::build(&two);
    assert_eq!(index.by_pkgname("p"), Some(0));
}

#[test]
fn bundles_are_found_by_full_ref_and_by_id_segment() {
    let components = fixture();
    let index = Index::build(&components);
    assert_eq!(index.by_bundle("app/org.gimp.GIMP/x86_64/stable"), Some(5));
    assert_eq!(index.by_bundle("org.gimp.GIMP"), Some(5));
    assert_eq!(
        index.by_bundle("runtime/org.freedesktop.Platform/x86_64/24.08"),
        Some(6)
    );
    assert_eq!(index.by_bundle("org.freedesktop.Platform"), Some(6));
    assert_eq!(index.by_bundle("app/org.gimp.GIMP/aarch64/stable"), None);
    assert_eq!(bundle_id("app//x/y"), None);
    assert_eq!(bundle_id("garbage"), None);
}

#[test]
fn the_first_of_two_components_with_one_id_wins() {
    let components = vec![
        component("a.b", "First", "desktop-application"),
        component("a.b", "Second", "desktop-application"),
    ];
    let index = Index::build(&components);
    assert_eq!(index.by_id("a.b"), Some(0));
    assert_eq!(index.by_id("A.B"), None, "ids are exact");
}

#[test]
fn the_catalogue_answers_with_its_components() {
    let catalogue = Catalogue::from_components(fixture());
    assert!(!catalogue.is_empty());
    assert_eq!(catalogue.components().len(), 7);
    assert_eq!(
        catalogue.by_id("org.gimp.GIMP").map(|c| c.name.as_str()),
        Some("GNU Image Manipulation Program")
    );
    assert_eq!(
        catalogue.by_pkgname("gimp").map(|c| c.id.as_str()),
        Some("org.gimp.GIMP")
    );
    assert_eq!(
        catalogue.by_bundle("org.freedesktop.Platform").map(|c| c.id.as_str()),
        Some("org.freedesktop.Platform")
    );
    let found: Vec<&str> = catalogue
        .search("  Lutris ", 5)
        .into_iter()
        .map(|c| c.id.as_str())
        .collect();
    assert_eq!(found, vec!["net.lutris.Lutris"]);
    assert!(Catalogue::default().is_empty());
    assert_eq!(bundle_id("app/org.gimp.GIMP/x86_64/stable").as_deref(), Some("org.gimp.GIMP"));
    assert_eq!(Catalogue::system_xml_dirs()[0], "/usr/share/swcatalog/xml");
}
