use bap_core::model::{Error, Package, SourceKind};
use bap_core::store::{merge_found, selected, Found, Query};

#[test]
fn a_query_goes_to_the_available_sources_it_asks_for_in_order() {
    let kinds = vec![SourceKind::Pacman, SourceKind::Aur, SourceKind::Flatpak, SourceKind::Snap];
    let available = vec![true, false, true, true];
    assert_eq!(selected(&kinds, &available, &None), vec![0, 2, 3]);
    assert_eq!(
        selected(&kinds, &available, &Some(vec![SourceKind::Snap, SourceKind::Aur, SourceKind::Pacman])),
        vec![0, 3]
    );
    assert!(selected(&kinds, &available, &Some(Vec::new())).is_empty());
}

#[test]
fn a_new_query_asks_every_source_for_two_hundred() {
    let q = Query::new("steam");
    assert_eq!(q.text, "steam");
    assert_eq!(q.sources, None);
    assert_eq!(q.limit, 200);
}

#[test]
fn found_answers_merge_in_order_and_failures_are_kept() {
    let answers = vec![
        Found {
            kind: SourceKind::Pacman,
            result: Ok(vec![Package::new(SourceKind::Pacman, "vim".into(), "vim".into())]),
        },
        Found {
            kind: SourceKind::Flatpak,
            result: Err(Error::new("Flatpak is not answering.".into())),
        },
        Found {
            kind: SourceKind::Aur,
            result: Ok(vec![Package::new(SourceKind::Aur, "vim-git".into(), "vim-git".into())]),
        },
    ];
    let (packages, failed) = merge_found(answers);
    let ids: Vec<&str> = packages.iter().map(|p| p.id.as_str()).collect();
    assert_eq!(ids, vec!["vim", "vim-git"]);
    assert_eq!(failed, vec![(SourceKind::Flatpak, "Flatpak is not answering.".to_string())]);
}
