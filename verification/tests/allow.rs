use bap_core::allow::{check_step, validate, validate_with, Allowed};
use bap_core::model::{Command, Plan, SourceKind, Step};

fn step(program: &str, args: &[&str]) -> Step {
    Step {
        source: SourceKind::Pacman,
        title: "Test".to_string(),
        command: Command {
            program: program.to_string(),
            args: args.iter().map(|a| a.to_string()).collect(),
            env: Vec::new(),
            cwd: None,
        },
        needs_root: true,
        weight: 1,
    }
}

fn plan_of(steps: Vec<Step>) -> Plan {
    Plan {
        id: "test".to_string(),
        ops: Vec::new(),
        steps,
    }
}

fn allowed() -> Allowed {
    Allowed::for_home(Some("/home/me"))
}

fn ok(program: &str, args: &[&str]) {
    let step = step(program, args);
    assert_eq!(
        check_step(&step, &allowed()),
        Ok(()),
        "{program} {args:?} should be allowed"
    );
}

fn refused(program: &str, args: &[&str]) -> String {
    let step = step(program, args);
    let plan = plan_of(vec![step]);
    let err = validate_with(&plan, &allowed())
        .expect_err(&format!("{program} {args:?} should be refused"));
    assert!(
        err.starts_with(&format!(
            "The helper refused a step it does not allow: {program}"
        )),
        "{err}"
    );
    assert!(err.ends_with('.'), "the reason is a sentence: {err}");
    assert!(!err.contains('\u{2014}'), "no em dashes: {err}");
    err
}

#[test]
fn the_closed_list_accepts_what_the_sources_produce() {
    ok("pacman", &["-S", "--noconfirm", "--needed", "steam", "lib32-mesa"]);
    ok("pacman", &["-Sy"]);
    ok("pacman", &["-Syu", "--noconfirm"]);
    ok("pacman", &["-S", "--needed", "--asdeps", "--noconfirm", "cmake"]);
    ok("pacman", &["-Rs", "--noconfirm", "steam"]);
    ok(
        "pacman",
        &["-U", "--noconfirm", "/var/cache/pacman/pkg/steam-1.0-1-x86_64.pkg.tar.zst"],
    );
    ok(
        "pacman",
        &["-U", "/home/me/.cache/bap-store/bap-store-0.2.0-1-x86_64.pkg.tar.zst"],
    );
    ok("apt-get", &["install", "-y", "steam", "libgl1:i386", "foo=1.2-3~bpo1"]);
    ok("apt-get", &["-y", "install", "--only-upgrade", "firefox"]);
    ok(
        "apt-get",
        &["install", "-y", "/home/me/.cache/bap-store/bap-store_0.2.0_amd64.deb"],
    );
    ok("apt-get", &["remove", "-y", "steam"]);
    ok("apt-get", &["update"]);
    ok("apt-get", &["upgrade", "-y"]);
    ok("dnf", &["install", "-y", "steam", "nodejs:20"]);
    ok("dnf", &["remove", "-y", "steam"]);
    ok("dnf", &["upgrade", "-y"]);
    ok("dnf", &["upgrade", "-y", "firefox"]);
    ok("dnf", &["makecache"]);
    ok("snap", &["install", "--classic", "code"]);
    ok("snap", &["remove", "code"]);
    ok("snap", &["refresh"]);
    ok("snap", &["refresh", "code"]);
    ok(
        "flatpak",
        &["install", "--system", "-y", "--noninteractive", "flathub", "org.gimp.GIMP"],
    );
    ok(
        "flatpak",
        &["--system", "install", "-y", "flathub", "app/org.gimp.GIMP/x86_64/stable"],
    );
    ok("flatpak", &["uninstall", "--system", "-y", "org.gimp.GIMP"]);
    ok("flatpak", &["update", "--system", "-y"]);
    ok("chwd", &["-i", "nvidia-open-dkms.prime"]);
    ok("chwd", &["-r", "nvidia-open-dkms.prime"]);
    ok("rpm", &["-U", "/home/me/.cache/bap-store/bap-store-0.2.0-1.x86_64.rpm"]);
    ok("dpkg", &["-i", "/home/me/.cache/bap-store/bap-store_0.2.0_amd64.deb"]);
}

#[test]
fn anything_else_is_refused_whole() {
    refused("rm", &["-rf", "/"]);
    refused("sh", &["-c", "pacman -S foo"]);
    refused("/usr/bin/pacman", &["-S", "foo"]);
    refused("pacman", &["-Ss", "foo"]);
    refused("pacman", &["-S"]);
    refused("pacman", &["-Rs"]);
    refused("pacman", &["-S", "--config", "/tmp/evil.conf", "foo"]);
    refused("pacman", &["-S", "--noconfirm", "-foo"]);
    refused("pacman", &["-S", "foo bar"]);
    refused("pacman", &["-S", "foo;rm"]);
    refused("pacman", &["-U", "/tmp/evil.pkg.tar.zst"]);
    refused("pacman", &["-U", "/var/cache/pacman/pkg/../../../tmp/evil.pkg.tar.zst"]);
    refused("pacman", &["-U", "/var/cache/pacman/pkg/notes.txt"]);
    refused("pacman", &["-U", "var/cache/pacman/pkg/x.pkg.tar.zst"]);
    refused("pacman", &["-U"]);
    refused("apt-get", &["install", "-y", "--allow-unauthenticated", "foo"]);
    refused("apt-get", &["update", "foo"]);
    refused("apt-get", &["install", "-y", "/tmp/evil.deb"]);
    refused("apt-get", &["dist-upgrade", "-y"]);
    refused("dnf", &["install", "-y", "--nogpgcheck", "foo"]);
    refused("dnf", &["makecache", "foo"]);
    refused("dnf", &["install", "-y"]);
    refused("snap", &["install", "--dangerous", "foo"]);
    refused("snap", &["install"]);
    refused("flatpak", &["install", "-y", "flathub", "org.gimp.GIMP", "--user"]);
    refused("flatpak", &["run", "org.gimp.GIMP"]);
    refused("flatpak", &["install", "-y"]);
    refused("flatpak", &["install", "-y", "flathub", "org.gimp.GIMP;x"]);
    refused("chwd", &["-i"]);
    refused("chwd", &["-a"]);
    refused("chwd", &["-i", "profile", "--extra"]);
    refused("rpm", &["-e", "foo"]);
    refused("rpm", &["-U", "/tmp/x.rpm"]);
    refused("rpm", &["-U", "/home/me/.cache/bap-store/x.deb"]);
    refused("dpkg", &["-i", "/home/me/.cache/bap-store/x.deb", "--force-all"]);
    refused("dpkg", &["--configure", "-a"]);
}

#[test]
fn a_refusal_names_the_step_and_the_reason() {
    let err = refused("pacman", &["-S", "--config", "/tmp/evil.conf", "foo"]);
    assert_eq!(
        err,
        "The helper refused a step it does not allow: pacman -S --config /tmp/evil.conf foo. \
         The option --config is not allowed for pacman -S."
    );
}

#[test]
fn one_bad_step_refuses_the_whole_plan() {
    let plan = plan_of(vec![
        step("pacman", &["-S", "--noconfirm", "foo"]),
        step("pacman", &["-S", "--noconfirm", "bar"]),
        step("curl", &["https://example.org"]),
    ]);
    let err = validate(&plan).unwrap_err();
    assert!(err.contains("curl https://example.org"), "{err}");
}

#[test]
fn session_steps_and_working_directories_do_not_belong_in_the_helper() {
    let mut session = step("pacman", &["-S", "--noconfirm", "foo"]);
    session.needs_root = false;
    assert!(check_step(&session, &allowed())
        .unwrap_err()
        .contains("needing root"));

    let mut with_cwd = step("pacman", &["-S", "--noconfirm", "foo"]);
    with_cwd.command.cwd = Some("/tmp".to_string());
    assert!(check_step(&with_cwd, &allowed())
        .unwrap_err()
        .contains("working directory"));
}

#[test]
fn only_three_environment_variables_pass() {
    let mut fine = step("apt-get", &["install", "-y", "foo"]);
    fine.command.env = vec![
        ("DEBIAN_FRONTEND".to_string(), "noninteractive".to_string()),
        ("LC_ALL".to_string(), "C.UTF-8".to_string()),
        ("LANG".to_string(), "C.UTF-8".to_string()),
    ];
    assert_eq!(check_step(&fine, &allowed()), Ok(()));

    let mut sneaky = step("apt-get", &["install", "-y", "foo"]);
    sneaky.command.env = vec![("LD_PRELOAD".to_string(), "/tmp/evil.so".to_string())];
    assert!(check_step(&sneaky, &allowed())
        .unwrap_err()
        .contains("LD_PRELOAD"));

    let mut newline = step("apt-get", &["install", "-y", "foo"]);
    newline.command.env = vec![("LANG".to_string(), "C\nPATH=/tmp".to_string())];
    assert!(check_step(&newline, &allowed())
        .unwrap_err()
        .contains("control character"));
}

#[test]
fn the_system_caches_are_allowed_without_a_home() {
    let plan = plan_of(vec![step(
        "pacman",
        &["-U", "/var/cache/pacman/pkg/foo-1-1-any.pkg.tar.zst"],
    )]);
    assert_eq!(validate(&plan), Ok(()));
    let plan = plan_of(vec![step(
        "pacman",
        &["-U", "/home/me/.cache/bap-store/foo-1-1-any.pkg.tar.zst"],
    )]);
    assert!(
        validate(&plan).is_err(),
        "the home cache needs to be named by the caller"
    );
}

#[test]
fn an_empty_plan_is_fine() {
    assert_eq!(validate(&plan_of(Vec::new())), Ok(()));
}

#[test]
fn every_reason_has_its_sentence() {
    let e = check_step(&step("pacman", &["-S", "foo\0bar"]), &allowed()).unwrap_err();
    assert_eq!(e, "An argument contains a control character.");
    let e = check_step(&step("dnf", &["makecache", "foo"]), &allowed()).unwrap_err();
    assert_eq!(e, "dnf makecache takes no package names.");
    let e = check_step(&step("pacman", &["-Ss", "foo"]), &allowed()).unwrap_err();
    assert_eq!(e, "pacman must be given one of -S, -Sy, -Syu, -Rs or -U as its first argument.");
    let e = check_step(&step("rm", &["-rf"]), &allowed()).unwrap_err();
    assert_eq!(
        e,
        "Only pacman, apt-get, dnf, snap, flatpak, chwd, rpm or dpkg may be run by the helper, by name and not by path."
    );
    let e = check_step(&step("snap", &["install", "a b"]), &allowed()).unwrap_err();
    assert_eq!(
        e,
        "a b is not a valid name. A name has letters, digits and @ . _ + - and does not start with a dash."
    );
    let e = check_step(&step("rpm", &["-U", "/tmp/x.rpm"]), &allowed()).unwrap_err();
    assert_eq!(
        e,
        "/tmp/x.rpm is not a .rpm file under a directory the store may install from (/var/cache/pacman/pkg, /var/cache/apt/archives, /home/me/.cache/bap-store)."
    );
    let e = check_step(&step("apt-get", &["dist-upgrade"]), &allowed()).unwrap_err();
    assert_eq!(e, "apt-get must be given one of install, remove, update or upgrade.");
}
