use bap_core::commands::{
    delivery, group_split, preview, run_plan, self_check, sentence, shape_query, to_run,
    updates_from, wrap, SelfCheck, UpdatesFrom, DEFAULT_LIMIT, MAX_LIMIT,
};
use bap_core::model::{
    Command, Error, Op, Package, PackageRef, Plan, SourceKind, SourceStatus, Step, Update,
};
use bap_core::settings::Settings;
use bap_core::store::{Query, Source, Store};
use bap_core::system::from_os_release;

struct Quiet {
    kind: SourceKind,
}

impl Source for Quiet {
    fn kind_view(&self) -> SourceKind {
        self.kind
    }
    fn status_answer(&self, r: SourceStatus) -> bool {
        r == self.status()
    }
    fn updates_answer(&self, r: Result<Vec<Update>, Error>) -> bool {
        r == self.updates()
    }
    fn plan_answer(&self, op: Op, r: Result<Vec<Step>, Error>) -> bool {
        r == self.plan(&op)
    }
    fn kind(&self) -> SourceKind {
        self.kind
    }
    fn status(&self) -> SourceStatus {
        SourceStatus {
            kind: self.kind,
            available: true,
            reason: None,
            detail: None,
        }
    }
    fn search(&self, _: &Query) -> Result<Vec<Package>, Error> {
        Ok(Vec::new())
    }
    fn installed(&self) -> Result<Vec<Package>, Error> {
        Ok(Vec::new())
    }
    fn updates(&self) -> Result<Vec<Update>, Error> {
        Ok(Vec::new())
    }
    fn details(&self, id: &str) -> Result<Package, Error> {
        Err(Error::new(format!("{id} is not known.")))
    }
    fn plan(&self, op: &Op) -> Result<Vec<Step>, Error> {
        match op {
            Op::Install { package } => Ok(vec![Step {
                source: self.kind,
                title: format!("Installing {}", package.id),
                command: Command {
                    program: "pacman".into(),
                    args: vec!["-S".into(), "--noconfirm".into(), package.id.clone()],
                    env: Vec::new(),
                    cwd: None,
                },
                needs_root: true,
                weight: 1,
            }]),
            _ => Ok(Vec::new()),
        }
    }
}

fn store_of(kinds: &[SourceKind]) -> Store {
    Store {
        system: from_os_release("", "x86_64", None, None),
        sources: kinds
            .iter()
            .map(|k| Box::new(Quiet { kind: *k }) as Box<dyn Source>)
            .collect(),
    }
}

fn steam() -> PackageRef {
    PackageRef {
        source: SourceKind::Pacman,
        id: "steam".into(),
    }
}

#[test]
fn a_sentence_ends_with_a_full_stop_and_nothing_is_said_twice() {
    assert_eq!(
        sentence("could not reach aur.archlinux.org"),
        "could not reach aur.archlinux.org."
    );
    assert_eq!(
        sentence("Flatpak is not installed. "),
        "Flatpak is not installed."
    );
    assert_eq!(sentence("Really?"), "Really?");
    assert!(sentence("   ").contains("did not say what"));
}

#[test]
fn a_query_takes_the_enabled_sources_and_a_sane_limit() {
    let settings = Settings {
        enabled_sources: vec![SourceKind::Pacman, SourceKind::Aur],
        ..Settings::default()
    };

    let q = shape_query(Query::new("steam"), &settings);
    assert_eq!(q.sources, Some(vec![SourceKind::Pacman, SourceKind::Aur]));
    assert_eq!(q.limit, DEFAULT_LIMIT);

    let explicit = Query {
        text: "steam".into(),
        sources: Some(vec![SourceKind::Flatpak]),
        limit: 5000,
        split: Vec::new(),
    };
    let q = shape_query(explicit, &settings);
    assert_eq!(
        q.sources,
        Some(vec![SourceKind::Flatpak]),
        "the page's own choice stands"
    );
    assert_eq!(q.limit, MAX_LIMIT);

    let zero = Query {
        text: "x".into(),
        sources: None,
        limit: 0,
        split: Vec::new(),
    };
    assert_eq!(shape_query(zero, &settings).limit, DEFAULT_LIMIT);
}

#[test]
fn a_preview_is_a_dry_run_with_notices() {
    let store = store_of(&[SourceKind::Pacman]);
    let preview = preview(&store, &[Op::Install { package: steam() }]).unwrap();
    assert!(preview.plan.id.starts_with("plan-"));
    assert_eq!(preview.plan.ops.len(), 1);
    assert!(preview.notices.is_empty(), "nothing to say on this branch");
}

#[test]
fn a_plan_with_nothing_to_do_is_refused_before_it_starts() {
    let store = store_of(&[SourceKind::Aur]);
    let err = run_plan(
        &store,
        &[Op::Refresh {
            source: SourceKind::Aur,
        }],
    )
    .unwrap_err();
    assert!(err.starts_with("There is nothing to do."), "{err}");
}

#[test]
fn splitting_a_group_is_remembered_once() {
    let first = group_split(Settings::default(), &steam());
    let second = group_split(first.clone(), &steam());
    assert_eq!(first.split, vec!["pacman:steam".to_string()]);
    assert_eq!(second.split, first.split);
}

#[test]
fn a_plan_that_cannot_be_built_is_its_error_as_a_sentence() {
    let err = to_run(Err(Error::new("no such package".to_string()))).unwrap_err();
    assert_eq!(err, "no such package.");
    let plan = Plan {
        id: "plan-1".into(),
        ops: Vec::new(),
        steps: Vec::new(),
    };
    assert!(to_run(Ok(plan)).unwrap_err().starts_with("There is nothing to do."));
    let ok = run_plan(&store_of(&[SourceKind::Pacman]), &[Op::Install { package: steam() }]).unwrap();
    assert_eq!(ok.steps.len(), 1);
}

#[test]
fn the_update_list_and_the_self_check_follow_their_rules() {
    assert_eq!(updates_from(false, true, true), UpdatesFrom::Cache);
    assert_eq!(updates_from(false, false, false), UpdatesFrom::Refreshed);
    assert_eq!(updates_from(false, false, true), UpdatesFrom::Databases);
    assert_eq!(updates_from(true, true, true), UpdatesFrom::Refreshed);
    assert_eq!(self_check(false, true, false), SelfCheck::Cache);
    assert_eq!(self_check(false, false, false), SelfCheck::Unchecked);
    assert_eq!(self_check(false, false, true), SelfCheck::Ask);
    assert_eq!(self_check(true, true, false), SelfCheck::Ask);
    assert_eq!(delivery(Some(true)).tell_sources, Some(true));
    assert!(delivery(Some(true)).forget_store);
    assert!(!delivery(Some(false)).forget_store);
    assert!(!delivery(None).forget_store);
}

#[test]
fn a_wrapped_plan_has_its_own_id_and_no_ops() {
    let p = wrap(Vec::new());
    assert!(p.id.starts_with("plan-"));
    assert!(p.ops.is_empty());
}

#[test]
fn an_operation_on_a_missing_source_is_refused_by_name() {
    let store = store_of(&[SourceKind::Pacman]);
    let ops = [Op::UpdateAll {
        source: SourceKind::Flatpak,
    }];
    assert_eq!(
        preview(&store, &ops).unwrap_err(),
        "Flatpak is not a source on this machine."
    );
    assert_eq!(
        run_plan(&store, &ops).unwrap_err(),
        "Flatpak is not a source on this machine."
    );
}

#[test]
fn no_operations_preview_as_nothing_and_do_not_run() {
    let store = store_of(&[SourceKind::Pacman]);
    let preview = preview(&store, &[]).unwrap();
    assert!(preview.plan.steps.is_empty());
    assert!(preview.notices.is_empty());
    assert_eq!(
        run_plan(&store, &[]).unwrap_err(),
        "There is nothing to do. Everything asked for is already in place."
    );
}
