use bap_core::model::{
    Command, Error, Op, Package, PackageKind, PackageRef, SourceKind, SourceStatus, Step, Update,
};
use bap_core::plan::{batch_key, batchable, build, notices, PARTIAL_UPGRADE_NOTICE};
use bap_core::store::{Query, Source, Store};
use bap_core::system::from_os_release;

struct Fake {
    kind: SourceKind,
    steps: fn(&Op) -> Vec<Step>,
    pending: Vec<&'static str>,
}

impl Source for Fake {
    fn kind_view(&self) -> SourceKind {
        self.kind
    }
    fn status_answer(&self, r: SourceStatus) -> bool {
        r == self.status()
    }
    fn updates_answer(&self, r: Result<Vec<Update>, Error>) -> bool {
        r == self.updates()
    }
    fn plan_answer(&self, op: Op, r: Result<Vec<Step>, Error>) -> bool {
        r == self.plan(&op)
    }
    fn kind(&self) -> SourceKind {
        self.kind
    }
    fn status(&self) -> SourceStatus {
        SourceStatus {
            kind: self.kind,
            available: true,
            reason: None,
            detail: None,
        }
    }
    fn search(&self, _: &Query) -> Result<Vec<Package>, Error> {
        Ok(Vec::new())
    }
    fn installed(&self) -> Result<Vec<Package>, Error> {
        Ok(Vec::new())
    }
    fn updates(&self) -> Result<Vec<Update>, Error> {
        Ok(self
            .pending
            .iter()
            .map(|id| Update {
                package: PackageRef {
                    source: self.kind,
                    id: id.to_string(),
                },
                name: id.to_string(),
                kind: PackageKind::Package,
                summary: None,
                icon: None,
                from: None,
                to: "2".to_string(),
                download_size: None,
                published: None,
                is_self: false,
            })
            .collect())
    }
    fn details(&self, id: &str) -> Result<Package, Error> {
        Err(Error::new(format!("{id} is not known.")))
    }
    fn plan(&self, op: &Op) -> Result<Vec<Step>, Error> {
        Ok((self.steps)(op))
    }
}

fn step(source: SourceKind, title: &str, program: &str, args: &[&str], root: bool) -> Step {
    Step {
        source,
        title: title.to_string(),
        command: Command {
            program: program.to_string(),
            args: args.iter().map(|a| a.to_string()).collect(),
            env: Vec::new(),
            cwd: None,
        },
        needs_root: root,
        weight: 2,
    }
}

fn id_of(op: &Op) -> String {
    match op {
        Op::Install { package } | Op::Remove { package } | Op::Update { package } => {
            package.id.clone()
        }
        Op::UpdateAll { .. } => "all".to_string(),
        Op::Refresh { .. } => "refresh".to_string(),
    }
}

fn pacman_steps(op: &Op) -> Vec<Step> {
    let id = id_of(op);
    match op {
        Op::Install { .. } | Op::Update { .. } => vec![step(
            SourceKind::Pacman,
            &format!("Installing {id}"),
            "pacman",
            &["-S", "--noconfirm", "--needed", &id],
            true,
        )],
        Op::Remove { .. } => vec![step(
            SourceKind::Pacman,
            &format!("Removing {id}"),
            "pacman",
            &["-Rs", "--noconfirm", &id],
            true,
        )],
        Op::UpdateAll { .. } => vec![step(
            SourceKind::Pacman,
            "Updating everything",
            "pacman",
            &["-Syu", "--noconfirm"],
            true,
        )],
        Op::Refresh { .. } => vec![step(
            SourceKind::Pacman,
            "Refreshing",
            "pacman",
            &["-Sy"],
            true,
        )],
    }
}

fn flatpak_steps(op: &Op) -> Vec<Step> {
    let id = id_of(op);
    let remote = if id.ends_with("beta") {
        "flathub-beta"
    } else {
        "flathub"
    };
    vec![step(
        SourceKind::Flatpak,
        &format!("Installing {id}"),
        "flatpak",
        &["install", "--system", "-y", remote, &id],
        true,
    )]
}

fn aur_steps(op: &Op) -> Vec<Step> {
    let id = id_of(op);
    vec![
        step(
            SourceKind::Aur,
            "Installing build dependencies",
            "pacman",
            &["-S", "--needed", "--asdeps", "cmake"],
            true,
        ),
        step(SourceKind::Aur, &format!("Building {id}"), "makepkg", &["-si"], false),
    ]
}

fn github_steps(op: &Op) -> Vec<Step> {
    let id = id_of(op);
    vec![
        step(
            SourceKind::Github,
            &format!("Downloading {id}"),
            "curl",
            &["-o", "x.pkg.tar.zst"],
            false,
        ),
        step(
            SourceKind::Github,
            &format!("Installing {id}"),
            "pacman",
            &["-U", "/tmp/x.pkg.tar.zst"],
            true,
        ),
    ]
}

fn store(sources: Vec<Box<dyn Source>>) -> Store {
    Store {
        system: from_os_release("ID=arch\n", "x86_64", None, None),
        sources,
    }
}

fn fake(kind: SourceKind, steps: fn(&Op) -> Vec<Step>) -> Box<dyn Source> {
    Box::new(Fake {
        kind,
        steps,
        pending: Vec::new(),
    })
}

fn install(kind: SourceKind, id: &str) -> Op {
    Op::Install {
        package: PackageRef {
            source: kind,
            id: id.to_string(),
        },
    }
}

fn update(kind: SourceKind, id: &str) -> Op {
    Op::Update {
        package: PackageRef {
            source: kind,
            id: id.to_string(),
        },
    }
}

fn remove(kind: SourceKind, id: &str) -> Op {
    Op::Remove {
        package: PackageRef {
            source: kind,
            id: id.to_string(),
        },
    }
}

fn args(step: &Step) -> Vec<&str> {
    step.command.args.iter().map(String::as_str).collect()
}

#[test]
fn three_pacman_installs_become_one_step() {
    let store = store(vec![fake(SourceKind::Pacman, pacman_steps)]);
    let ops = [
        install(SourceKind::Pacman, "steam"),
        install(SourceKind::Pacman, "lutris"),
        install(SourceKind::Pacman, "wine"),
    ];
    let plan = build(&store, &ops).unwrap();
    assert_eq!(plan.steps.len(), 1);
    let s = &plan.steps[0];
    assert_eq!(args(s), ["-S", "--noconfirm", "--needed", "steam", "lutris", "wine"]);
    assert_eq!(s.title, "Installing 3 packages");
    assert!(s.needs_root);
    assert_eq!(s.weight, 6, "weights add up");
    assert_eq!(plan.ops.len(), 3);
    assert!(plan.id.starts_with("plan-"));
}

#[test]
fn a_single_step_keeps_its_own_title() {
    let store = store(vec![fake(SourceKind::Pacman, pacman_steps)]);
    let plan = build(&store, &[install(SourceKind::Pacman, "steam")]).unwrap();
    assert_eq!(plan.steps[0].title, "Installing steam");
}

#[test]
fn installs_and_removes_do_not_mix_and_removes_say_so() {
    let store = store(vec![fake(SourceKind::Pacman, pacman_steps)]);
    let ops = [
        install(SourceKind::Pacman, "a"),
        remove(SourceKind::Pacman, "b"),
        remove(SourceKind::Pacman, "c"),
        install(SourceKind::Pacman, "d"),
    ];
    let plan = build(&store, &ops).unwrap();
    let titles: Vec<&str> = plan.steps.iter().map(|s| s.title.as_str()).collect();
    assert_eq!(titles, ["Installing a", "Removing 2 packages", "Installing d"]);
    assert_eq!(args(&plan.steps[1]), ["-Rs", "--noconfirm", "b", "c"]);
}

#[test]
fn updates_through_pacman_s_are_titled_updating() {
    let store = store(vec![fake(SourceKind::Pacman, pacman_steps)]);
    let ops = [update(SourceKind::Pacman, "a"), update(SourceKind::Pacman, "b")];
    let plan = build(&store, &ops).unwrap();
    assert_eq!(plan.steps[0].title, "Updating 2 packages");
}

#[test]
fn a_repeated_name_is_not_listed_twice() {
    let store = store(vec![fake(SourceKind::Pacman, pacman_steps)]);
    let ops = [install(SourceKind::Pacman, "a"), install(SourceKind::Pacman, "a")];
    let plan = build(&store, &ops).unwrap();
    assert_eq!(args(&plan.steps[0]), ["-S", "--noconfirm", "--needed", "a"]);
    assert_eq!(plan.steps[0].title, "Installing a");
}

#[test]
fn flatpak_batches_within_a_remote_only() {
    let store = store(vec![fake(SourceKind::Flatpak, flatpak_steps)]);
    let ops = [
        install(SourceKind::Flatpak, "org.gimp.GIMP"),
        install(SourceKind::Flatpak, "org.inkscape.Inkscape"),
        install(SourceKind::Flatpak, "org.gimp.GIMP.beta"),
    ];
    let plan = build(&store, &ops).unwrap();
    assert_eq!(plan.steps.len(), 2);
    assert_eq!(
        args(&plan.steps[0]),
        ["install", "--system", "-y", "flathub", "org.gimp.GIMP", "org.inkscape.Inkscape"]
    );
    assert_eq!(plan.steps[0].title, "Installing 2 packages");
    assert_eq!(
        args(&plan.steps[1]),
        ["install", "--system", "-y", "flathub-beta", "org.gimp.GIMP.beta"]
    );
}

#[test]
fn sources_are_grouped_so_interleaved_ops_still_batch() {
    let store = store(vec![
        fake(SourceKind::Pacman, pacman_steps),
        fake(SourceKind::Flatpak, flatpak_steps),
    ]);
    let ops = [
        install(SourceKind::Flatpak, "org.gimp.GIMP"),
        install(SourceKind::Pacman, "a"),
        install(SourceKind::Flatpak, "org.inkscape.Inkscape"),
        install(SourceKind::Pacman, "b"),
    ];
    let plan = build(&store, &ops).unwrap();
    assert_eq!(plan.steps.len(), 2);
    assert_eq!(plan.steps[0].source, SourceKind::Flatpak, "first appearance wins");
    assert_eq!(plan.steps[1].source, SourceKind::Pacman);
    assert_eq!(args(&plan.steps[1]), ["-S", "--noconfirm", "--needed", "a", "b"]);
}

#[test]
fn refresh_first_then_root_then_session() {
    let store = store(vec![
        fake(SourceKind::Pacman, pacman_steps),
        fake(SourceKind::Aur, aur_steps),
    ]);
    let ops = [
        install(SourceKind::Aur, "paru"),
        install(SourceKind::Pacman, "a"),
        Op::Refresh {
            source: SourceKind::Pacman,
        },
    ];
    let plan = build(&store, &ops).unwrap();
    let shape: Vec<(SourceKind, &str, bool)> = plan
        .steps
        .iter()
        .map(|s| (s.source, s.command.program.as_str(), s.needs_root))
        .collect();
    assert_eq!(
        shape,
        [
            (SourceKind::Pacman, "pacman", true),
            (SourceKind::Aur, "pacman", true),
            (SourceKind::Pacman, "pacman", true),
            (SourceKind::Aur, "makepkg", false),
        ]
    );
    assert_eq!(args(&plan.steps[0]), ["-Sy"]);
    assert_eq!(plan.steps[1].title, "Installing build dependencies");
}

#[test]
fn a_download_then_install_source_is_not_split_across_lanes() {
    let store = store(vec![
        fake(SourceKind::Pacman, pacman_steps),
        fake(SourceKind::Github, github_steps),
    ]);
    let ops = [install(SourceKind::Github, "bap-store"), install(SourceKind::Pacman, "a")];
    let plan = build(&store, &ops).unwrap();
    let shape: Vec<(&str, bool)> = plan
        .steps
        .iter()
        .map(|s| (s.command.program.as_str(), s.needs_root))
        .collect();
    assert_eq!(shape, [("pacman", true), ("curl", false), ("pacman", true)]);
    assert_eq!(args(&plan.steps[2]), ["-U", "/tmp/x.pkg.tar.zst"], "the -U is never batched");
}

fn apt_steps(op: &Op) -> Vec<Step> {
    let id = id_of(op);
    let mut s = step(
        SourceKind::Apt,
        &format!("Installing {id}"),
        "apt-get",
        &["install", "-y", &id],
        true,
    );
    if id == "b" {
        s.command
            .env
            .push(("DEBIAN_FRONTEND".to_string(), "noninteractive".to_string()));
    }
    vec![s]
}

#[test]
fn different_environments_do_not_batch() {
    let store = store(vec![fake(SourceKind::Apt, apt_steps)]);
    let ops = [
        install(SourceKind::Apt, "a"),
        install(SourceKind::Apt, "b"),
        install(SourceKind::Apt, "c"),
    ];
    let plan = build(&store, &ops).unwrap();
    assert_eq!(plan.steps.len(), 3);
}

#[test]
fn an_unknown_source_is_an_error_sentence() {
    let store = store(vec![fake(SourceKind::Pacman, pacman_steps)]);
    let err = build(&store, &[install(SourceKind::Snap, "code")]).unwrap_err();
    assert_eq!(err.message, "Snap is not a source on this machine.");
}

#[test]
fn the_batch_table_reads_commands_as_expected() {
    let cmd = |program: &str, args: &[&str]| Command {
        program: program.to_string(),
        args: args.iter().map(|a| a.to_string()).collect(),
        env: Vec::new(),
        cwd: None,
    };
    let key = batch_key(&cmd("pacman", &["-S", "--noconfirm", "--needed", "a", "b"])).unwrap();
    assert_eq!(key.head, ["-S", "--noconfirm", "--needed"]);
    assert_eq!(key.names, ["a", "b"]);

    let key = batch_key(&cmd("flatpak", &["--system", "install", "-y", "flathub", "org.x"])).unwrap();
    assert_eq!(key.head, ["--system", "install", "-y", "flathub"]);
    assert_eq!(key.names, ["org.x"]);

    let key = batch_key(&cmd("apt-get", &["-y", "install", "a"])).unwrap();
    assert_eq!(key.head, ["-y", "install"]);

    assert_eq!(batch_key(&cmd("pacman", &["-U", "/x.pkg.tar.zst"])), None, "-U is not in the table");
    assert_eq!(
        batch_key(&cmd("pacman", &["-S", "a", "--needed"])),
        None,
        "an option after a name is left alone"
    );
    assert_eq!(batch_key(&cmd("flatpak", &["install", "-y"])), None, "no remote, nothing to key on");
    assert_eq!(batch_key(&cmd("makepkg", &["-si"])), None);
    assert_eq!(
        batch_key(&cmd("pacman", &["--noconfirm", "-S", "a"])),
        None,
        "pacman's verb comes first"
    );
    assert!(batchable().iter().all(|r| !r.program.is_empty() && !r.verb.is_empty()));
}

#[test]
fn a_partial_pacman_update_carries_the_notice() {
    let pacman = Box::new(Fake {
        kind: SourceKind::Pacman,
        steps: pacman_steps,
        pending: vec!["a", "b", "c"],
    });
    let store = store(vec![pacman]);
    assert_eq!(
        notices(&store, &[update(SourceKind::Pacman, "a")]),
        [PARTIAL_UPGRADE_NOTICE.to_string()]
    );
    assert_eq!(
        notices(
            &store,
            &[
                update(SourceKind::Pacman, "a"),
                update(SourceKind::Pacman, "b"),
                update(SourceKind::Pacman, "c")
            ]
        ),
        Vec::<String>::new(),
        "every pending update ticked is not partial"
    );
    assert_eq!(
        notices(
            &store,
            &[
                update(SourceKind::Pacman, "a"),
                Op::UpdateAll {
                    source: SourceKind::Pacman
                }
            ]
        ),
        Vec::<String>::new()
    );
    assert_eq!(notices(&store, &[install(SourceKind::Pacman, "a")]), Vec::<String>::new());
    assert_eq!(notices(&store, &[update(SourceKind::Flatpak, "org.x")]), Vec::<String>::new());
    assert!(!PARTIAL_UPGRADE_NOTICE.contains('\u{2014}'));
}

#[test]
fn an_unreadable_pending_list_still_warns() {
    let store = store(vec![fake(SourceKind::Pacman, pacman_steps)]);
    assert_eq!(notices(&store, &[update(SourceKind::Pacman, "a")]).len(), 1);
}

#[test]
fn the_store_hands_out_the_first_source_of_a_kind() {
    let s = store(vec![
        fake(SourceKind::Flatpak, flatpak_steps),
        fake(SourceKind::Pacman, pacman_steps),
    ]);
    assert_eq!(s.source(SourceKind::Pacman).map(|x| x.kind()), Some(SourceKind::Pacman));
    assert_eq!(s.source(SourceKind::Flatpak).map(|x| x.kind()), Some(SourceKind::Flatpak));
    assert!(s.source(SourceKind::Snap).is_none());
    assert!(store(Vec::new()).source(SourceKind::Pacman).is_none());
}

#[test]
fn an_empty_list_of_operations_plans_nothing() {
    let s = store(vec![fake(SourceKind::Pacman, pacman_steps)]);
    let plan = build(&s, &[]).unwrap();
    assert!(plan.ops.is_empty());
    assert!(plan.steps.is_empty());
    assert!(plan.id.starts_with("plan-"));
}

#[test]
fn a_store_without_pacman_warns_of_any_partial_update() {
    let s = store(vec![fake(SourceKind::Flatpak, flatpak_steps)]);
    let n = notices(&s, &[update(SourceKind::Pacman, "firefox")]);
    assert_eq!(n, vec![PARTIAL_UPGRADE_NOTICE.to_string()]);
    assert!(notices(&s, &[install(SourceKind::Flatpak, "org.gimp.GIMP")]).is_empty());
}
