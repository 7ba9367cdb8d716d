//! Opening what was installed, and knowing when the desktop cannot see it
//! yet.
//!
//! Opening an application is not a transaction: nothing on the machine
//! changes, so it does not go through a plan. A desktop entry is handed to
//! `gio launch`, which reads `Exec`, `Terminal` and the field codes exactly
//! as the desktop does; a format with its own way to run what it installed
//! (`flatpak run`) gives a command instead.
//!
//! A desktop session reads desktop entries from the directories of
//! `XDG_DATA_DIRS`, fixed when the session starts. Flatpak and snapd add
//! theirs through profile scripts, so a session that was running when
//! Flatpak was installed cannot list a Flatpak application until the user
//! logs in again. The application can tell from its environment, and say so.

use vstd::prelude::*;
use crate::text;
use crate::model::{Command, strings_view};

verus! {

/// How to open one installed package.
#[derive(Clone, Debug, PartialEq, Eq)]
pub enum Launch {
    /// A desktop entry, opened with `gio launch`.
    Entry(String),
    /// A command started as it is (`flatpak run org.x.Y`), for a package
    /// with no desktop entry the session could use.
    Command(Command),
}

/// Two commands with the same program, arguments, environment and working
/// directory.
pub open spec fn same_command(a: Command, b: Command) -> bool {
    &&& a.program@ == b.program@
    &&& strings_view(a.args@) == strings_view(b.args@)
    &&& crate::allow::env_view(a.env@) == crate::allow::env_view(b.env@)
    &&& crate::model::opt_view(a.cwd) == crate::model::opt_view(b.cwd)
}

/// The process that opens a launch: `gio launch <entry>`, or the command.
pub open spec fn launch_command(l: Launch, c: Command) -> bool {
    match l {
        Launch::Entry(p) => {
            &&& c.program@ == "gio"@
            &&& strings_view(c.args@) == seq!["launch"@, p@]
            &&& c.env@.len() == 0
            &&& c.cwd is None
        },
        Launch::Command(x) => same_command(c, x),
    }
}

/// The last component of a path that names something: empty components
/// and `.` do not.
pub open spec fn last_component(parts: Seq<Seq<char>>) -> Option<Seq<char>>
    decreases parts.len(),
{
    if parts.len() == 0 {
        None
    } else if parts.last().len() > 0 && parts.last() != "."@ {
        Some(parts.last())
    } else {
        last_component(parts.drop_last())
    }
}

/// `Path::file_name`: the last component, unless that is `..` or there is
/// none.
pub open spec fn file_name_spec(p: Seq<char>) -> Option<Seq<char>> {
    match last_component(text::split(p, '/')) {
        Some(c) => if c == ".."@ {
            None
        } else {
            Some(c)
        },
        None => None,
    }
}

/// What the page shows in a tooltip: the entry's file name, or the command
/// line.
pub open spec fn describe_spec(l: Launch) -> Seq<char> {
    match l {
        Launch::Entry(p) => match file_name_spec(p@) {
            Some(n) => n,
            None => p@,
        },
        Launch::Command(c) => crate::allow::join(seq![c.program@] + strings_view(c.args@), " "@),
    }
}

fn copy_command(c: &Command) -> (r: Command)
    ensures
        same_command(r, *c),
{
    Command {
        program: c.program.clone(),
        args: crate::plan::copy_texts(&c.args),
        env: crate::plan::copy_env(&c.env),
        cwd: match &c.cwd {
            Some(d) => Some(d.clone()),
            None => None,
        },
    }
}

pub(crate) fn file_name(p: &str) -> (r: Option<String>)
    ensures
        crate::model::opt_view(r) == file_name_spec(p@),
{
    let all = text::chars(p);
    let parts = text::split_char(all.as_slice(), '/');
    let ghost ps = text::views(parts@);
    assert(ps.len() == parts@.len());
    let mut n: usize = parts.len();
    assert(ps.take(ps.len() as int) =~= ps);
    while n > 0 && (parts[n - 1].len() == 0 || text::eq_str(parts[n - 1].as_slice(), "."))
        invariant
            n <= parts@.len(),
            ps == text::views(parts@),
            ps.len() == parts@.len(),
            last_component(ps.take(n as int)) == last_component(ps),
        decreases n,
    {
        assert(ps[n - 1] == parts@[n - 1]@);
        assert(ps.take(n as int).drop_last() =~= ps.take(n - 1));
        n = n - 1;
    }
    if n == 0 {
        assert(ps.take(0) =~= Seq::<Seq<char>>::empty());
        return None;
    }
    assert(ps[n - 1] == parts@[n - 1]@);
    assert(ps.take(n as int).last() == ps[n - 1]);
    if text::eq_str(parts[n - 1].as_slice(), "..") {
        None
    } else {
        Some(text::string_of(parts[n - 1].as_slice()))
    }
}

impl Launch {
    /// The process that opens it.
    pub fn command(&self) -> (c: Command)
        ensures
            launch_command(*self, c),
    {
        match self {
            Launch::Entry(path) => {
                let mut args: Vec<String> = Vec::new();
                args.push(text::string_from("launch"));
                args.push(path.clone());
                assert(strings_view(args@) =~= seq!["launch"@, path@]);
                Command { program: text::string_from("gio"), args, env: Vec::new(), cwd: None }
            },
            Launch::Command(command) => copy_command(command),
        }
    }

    /// What the page shows in a tooltip: the entry's file name or the
    /// command line.
    pub fn describe(&self) -> (r: String)
        ensures
            r@ == describe_spec(*self),
    {
        match self {
            Launch::Entry(path) => match file_name(path.as_str()) {
                Some(n) => n,
                None => path.clone(),
            },
            Launch::Command(c) => {
                let ghost words = seq![c.program@] + strings_view(c.args@);
                let mut s = c.program.clone();
                let mut i: usize = 0;
                proof {
                    reveal_strlit(" ");
                    assert(words.take(1) =~= seq![c.program@]);
                }
                while i < c.args.len()
                    invariant
                        i <= c.args@.len(),
                        words == seq![c.program@] + strings_view(c.args@),
                        s@ == crate::allow::join(words.take(i + 1), " "@),
                    decreases c.args@.len() - i,
                {
                    text::push_str(&mut s, " ");
                    text::push_str(&mut s, c.args[i].as_str());
                    assert(words.take(i + 2).drop_last() =~= words.take(i + 1));
                    assert(words.take(i + 2).last() == c.args@[i as int]@);
                    i = i + 1;
                }
                assert(words.take(c.args@.len() as int + 1) =~= words);
                s
            },
        }
    }

    /// Whether the process exits once the application is started (`gio
    /// launch`) or stays for the application's lifetime (`flatpak run`).
    pub fn returns_at_once(&self) -> (r: bool)
        ensures
            r == (*self is Entry),
    {
        match self {
            Launch::Entry(_) => true,
            Launch::Command(_) => false,
        }
    }
}

/// A plain command, no environment, no working directory.
pub fn command(program: &str, args: &[&str]) -> (c: Command)
    ensures
        c.program@ == program@,
        strings_view(c.args@) == args@.map_values(|a: &str| a@),
        c.env@.len() == 0,
        c.cwd is None,
{
    let mut v: Vec<String> = Vec::new();
    let mut i: usize = 0;
    while i < args.len()
        invariant
            i <= args@.len(),
            strings_view(v@) == args@.take(i as int).map_values(|a: &str| a@),
        decreases args@.len() - i,
    {
        let ghost before = v@;
        v.push(text::string_from(args[i]));
        assert(strings_view(v@) =~= strings_view(before).push(args@[i as int]@));
        assert(args@.take(i + 1).map_values(|a: &str| a@) =~= args@.take(i as int).map_values(
            |a: &str| a@,
        ).push(args@[i as int]@));
        i = i + 1;
    }
    assert(args@.take(args@.len() as int) =~= args@);
    Command { program: text::string_from(program), args: v, env: Vec::new(), cwd: None }
}

// ---------------------------------------------------------------------------
// Desktop entries
// ---------------------------------------------------------------------------

/// A recorded file, as a path below the root: trimmed, leading slashes
/// dropped (pacman writes `usr/share/...`, dpkg `/usr/share/...`).
pub open spec fn relative(f: Seq<char>) -> Seq<char> {
    text::trim_char_start(text::trim(f), '/')
}

pub open spec fn is_entry_path(f: Seq<char>) -> bool {
    "usr/share/applications/"@.is_prefix_of(relative(f)) && ".desktop"@.is_suffix_of(relative(f))
}

/// The desktop entries a package's file list names, under `root`.
pub open spec fn entry_paths_spec(files: Seq<Seq<char>>, root: Seq<char>) -> Seq<Seq<char>>
    decreases files.len(),
{
    if files.len() == 0 {
        Seq::empty()
    } else {
        let rest = entry_paths_spec(files.drop_last(), root);
        if is_entry_path(files.last()) {
            rest.push(text::path_join(root, relative(files.last())))
        } else {
            rest
        }
    }
}

fn trim_slashes_start(s: &[char]) -> (r: Vec<char>)
    ensures
        r@ == text::trim_char_start(s@, '/'),
{
    let mut i: usize = 0;
    assert(s@.skip(0) =~= s@);
    while i < s.len() && s[i] == '/'
        invariant
            i <= s@.len(),
            text::trim_char_start(s@.skip(i as int), '/') == text::trim_char_start(s@, '/'),
        decreases s@.len() - i,
    {
        assert(s@.skip(i as int).drop_first() =~= s@.skip(i + 1));
        i = i + 1;
    }
    let r = text::slice_chars(s, i, s.len());
    assert(r@ =~= s@.skip(i as int));
    r
}

/// The paths of the desktop entries among a package's recorded files, under
/// `root`; which of them exist is for the caller to see.
pub fn entry_paths(files: &Vec<String>, root: &str) -> (r: Vec<String>)
    ensures
        strings_view(r@) == entry_paths_spec(strings_view(files@), root@),
{
    let rootc = text::chars(root);
    let mut r: Vec<String> = Vec::new();
    let mut i: usize = 0;
    let ghost fs = strings_view(files@);
    while i < files.len()
        invariant
            i <= files@.len(),
            fs == strings_view(files@),
            rootc@ == root@,
            strings_view(r@) == entry_paths_spec(fs.take(i as int), root@),
        decreases files@.len() - i,
    {
        assert(fs.take(i + 1).drop_last() =~= fs.take(i as int));
        assert(fs.take(i + 1).last() == files@[i as int]@);
        let all = text::chars(files[i].as_str());
        let t = text::trim_chars(all.as_slice());
        let f = trim_slashes_start(t.as_slice());
        if text::starts_with_str(f.as_slice(), "usr/share/applications/") && text::ends_with_str(
            f.as_slice(),
            ".desktop",
        ) {
            let p = text::path_join_chars(rootc.as_slice(), f.as_slice());
            let ghost before = r@;
            r.push(text::string_of(p.as_slice()));
            assert(strings_view(r@) =~= strings_view(before).push(p@));
        }
        i = i + 1;
    }
    assert(fs.take(files@.len() as int) =~= fs);
    r
}

/// Whether a launcher would list an entry, line by line: a group header
/// switches between the `[Desktop Entry]` group and others; in the main
/// group `NoDisplay=true` or `Hidden=true` ends it unlisted, and `Type`
/// says what it is.
pub open spec fn listable_fold(lines: Seq<Seq<char>>, in_main: bool, kind: Option<Seq<char>>) -> bool
    decreases lines.len(),
{
    if lines.len() == 0 {
        kind == Some("Application"@)
    } else {
        let line = text::trim(lines[0]);
        let rest = lines.drop_first();
        if line.len() > 0 && line[0] == '[' {
            listable_fold(rest, line == "[Desktop Entry]"@, kind)
        } else if !in_main {
            listable_fold(rest, in_main, kind)
        } else {
            match text::split_once(line, '=') {
                None => listable_fold(rest, in_main, kind),
                Some((k, v)) => {
                    let k = text::trim(k);
                    let v = text::trim(v);
                    if (k == "NoDisplay"@ || k == "Hidden"@) && v == "true"@ {
                        false
                    } else if k == "Type"@ {
                        listable_fold(rest, in_main, Some(v))
                    } else {
                        listable_fold(rest, in_main, kind)
                    }
                },
            }
        }
    }
}

/// Whether a launcher would list an entry with this text. Only the
/// `[Desktop Entry]` group counts: an action group's keys say nothing about
/// the entry.
pub open spec fn listable_spec(t: Seq<char>) -> bool {
    listable_fold(crate::settings::lines_of(t), false, None)
}

pub fn listable_text(t: &str) -> (r: bool)
    ensures
        r == listable_spec(t@),
{
    let all = text::chars(t);
    let pieces = crate::settings::lines(all.as_slice());
    let ghost ps = text::views(pieces@);
    assert(ps.len() == pieces@.len());
    let n = pieces.len();
    assert(crate::settings::lines_of(t@) =~= ps.take(n as int));
    let ghost lines = ps.take(n as int);
    let mut in_main = false;
    let mut kind: Option<Vec<char>> = None;
    let mut i: usize = 0;
    assert(lines.skip(0) =~= lines);
    while i < n
        invariant
            n <= pieces@.len(),
            ps == text::views(pieces@),
            ps.len() == pieces@.len(),
            lines == ps.take(n as int),
            i <= n,
            listable_fold(lines.skip(i as int), in_main, match kind {
                Some(k) => Some(k@),
                None => None,
            }) == listable_spec(t@),
        decreases n - i,
    {
        assert(lines.skip(i as int)[0] == pieces@[i as int]@);
        assert(lines.skip(i as int).drop_first() =~= lines.skip(i + 1));
        let line = text::trim_chars(pieces[i].as_slice());
        if line.len() > 0 && line[0] == '[' {
            in_main = text::eq_str(line.as_slice(), "[Desktop Entry]");
        } else if in_main {
            match text::split_once_char(line.as_slice(), '=') {
                None => {},
                Some((k, v)) => {
                    let k = text::trim_chars(k.as_slice());
                    let v = text::trim_chars(v.as_slice());
                    if (text::eq_str(k.as_slice(), "NoDisplay") || text::eq_str(k.as_slice(), "Hidden"))
                        && text::eq_str(v.as_slice(), "true") {
                        return false;
                    }
                    if text::eq_str(k.as_slice(), "Type") {
                        kind = Some(v);
                    }
                },
            }
        }
        i = i + 1;
    }
    assert(lines.skip(n as int) =~= Seq::<Seq<char>>::empty());
    match kind {
        Some(k) => text::eq_str(k.as_slice(), "Application"),
        None => false,
    }
}

// ---------------------------------------------------------------------------
// The session's directories
// ---------------------------------------------------------------------------

pub open spec fn default_data_dirs() -> Seq<char> {
    "/usr/local/share:/usr/share"@
}

/// `XDG_DATA_DIRS` as the specification reads it: unset or blank means the
/// default.
pub open spec fn data_dirs_text(v: Option<Seq<char>>) -> Seq<char> {
    match v {
        Some(t) => if text::trim(t).len() > 0 {
            t
        } else {
            default_data_dirs()
        },
        None => default_data_dirs(),
    }
}

/// Each non-empty directory with `applications` appended.
pub open spec fn app_dirs(parts: Seq<Seq<char>>) -> Seq<Seq<char>>
    decreases parts.len(),
{
    if parts.len() == 0 {
        Seq::empty()
    } else {
        let rest = app_dirs(parts.drop_last());
        if parts.last().len() > 0 {
            rest.push(text::path_join(text::trim_char_end(parts.last(), '/'), "applications"@))
        } else {
            rest
        }
    }
}

pub open spec fn session_dirs_spec(data_dirs: Option<Seq<char>>, data_home: Option<Seq<char>>) -> Seq<Seq<char>> {
    app_dirs(text::split(data_dirs_text(data_dirs), ':')) + match data_home {
        Some(h) => seq![text::path_join(h, "applications"@)],
        None => Seq::empty(),
    }
}

pub open spec fn opt_str(o: Option<&str>) -> Option<Seq<char>> {
    match o {
        Some(s) => Some(s@),
        None => None,
    }
}

/// The directories the session reads desktop entries from: each entry of
/// `XDG_DATA_DIRS` with `applications` appended, and the user's own data
/// directory. An unset or empty variable means the specification's default,
/// `/usr/local/share:/usr/share`.
pub fn session_dirs(xdg_data_dirs: Option<&str>, xdg_data_home: Option<&str>) -> (r: Vec<String>)
    ensures
        strings_view(r@) == session_dirs_spec(opt_str(xdg_data_dirs), opt_str(xdg_data_home)),
{
    let dirs: Vec<char> = match xdg_data_dirs {
        Some(v) => {
            let c = text::chars(v);
            let t = text::trim_chars(c.as_slice());
            if t.len() > 0 {
                c
            } else {
                text::chars("/usr/local/share:/usr/share")
            }
        },
        None => text::chars("/usr/local/share:/usr/share"),
    };
    let parts = text::split_char(dirs.as_slice(), ':');
    let ghost ps = text::views(parts@);
    assert(ps.len() == parts@.len());
    let apps = text::chars("applications");
    let mut out: Vec<String> = Vec::new();
    let mut i: usize = 0;
    while i < parts.len()
        invariant
            i <= parts@.len(),
            ps == text::views(parts@),
            ps.len() == parts@.len(),
            apps@ == "applications"@,
            strings_view(out@) == app_dirs(ps.take(i as int)),
        decreases parts@.len() - i,
    {
        assert(ps.take(i + 1).drop_last() =~= ps.take(i as int));
        assert(ps.take(i + 1).last() == parts@[i as int]@);
        if parts[i].len() > 0 {
            let d = text::trim_char_end_chars(parts[i].as_slice(), '/');
            let p = text::path_join_chars(d.as_slice(), apps.as_slice());
            let ghost before = out@;
            out.push(text::string_of(p.as_slice()));
            assert(strings_view(out@) =~= strings_view(before).push(p@));
        }
        i = i + 1;
    }
    assert(ps.take(parts@.len() as int) =~= ps);
    let ghost base = strings_view(out@);
    match xdg_data_home {
        Some(home) => {
            let h = text::chars(home);
            let p = text::path_join_chars(h.as_slice(), apps.as_slice());
            out.push(text::string_of(p.as_slice()));
            assert(strings_view(out@) =~= base + seq![p@]);
        },
        None => {
            assert(strings_view(out@) =~= base + Seq::<Seq<char>>::empty());
        },
    }
    out
}

/// Whether a session with these directories lists entries from `dir`,
/// trailing slashes aside.
pub open spec fn sees_spec(session: Seq<Seq<char>>, dir: Seq<char>) -> bool {
    exists|i: int| 0 <= i < session.len() && text::trim_char_end(#[trigger] session[i], '/') == text::trim_char_end(dir, '/')
}

pub fn sees(session: &Vec<String>, dir: &str) -> (r: bool)
    ensures
        r == sees_spec(strings_view(session@), dir@),
{
    let dc = text::chars(dir);
    let want = text::trim_char_end_chars(dc.as_slice(), '/');
    let ghost sv = strings_view(session@);
    let mut i: usize = 0;
    while i < session.len()
        invariant
            i <= session@.len(),
            sv == strings_view(session@),
            want@ == text::trim_char_end(dir@, '/'),
            forall|j: int| 0 <= j < i ==> text::trim_char_end(#[trigger] sv[j], '/') != want@,
        decreases session@.len() - i,
    {
        let c = text::chars(session[i].as_str());
        let n = text::trim_char_end_chars(c.as_slice(), '/');
        if text::eq(n.as_slice(), want.as_slice()) {
            assert(sv[i as int] == session@[i as int]@);
            return true;
        }
        assert(sv[i as int] == session@[i as int]@);
        i = i + 1;
    }
    false
}

pub open spec fn notice_text(label: Seq<char>) -> Seq<char> {
    label + " applications are installed but this desktop session started before "@ + label
        + " was set up, so your launcher does not list them yet. Log out and back in once to see them there; until then, open them from Brokey."@
}

/// The sentence for a format whose applications the session cannot list
/// yet: an export directory that holds at least one entry (`holds_entries`,
/// as the caller found it) and that the session does not read. `None` when
/// every such directory is seen, or none holds anything.
pub fn notice_for(label: &str, export_dirs: &Vec<String>, holds_entries: &Vec<bool>, session: &Vec<String>) -> (r: Option<String>)
    requires
        export_dirs@.len() == holds_entries@.len(),
    ensures
        (exists|i: int| 0 <= i < export_dirs@.len() && #[trigger] holds_entries@[i] && !sees_spec(
            strings_view(session@),
            export_dirs@[i]@,
        )) ==> (r matches Some(s) && s@ == notice_text(label@)),
        !(exists|i: int| 0 <= i < export_dirs@.len() && #[trigger] holds_entries@[i] && !sees_spec(
            strings_view(session@),
            export_dirs@[i]@,
        )) ==> r is None,
{
    let mut i: usize = 0;
    while i < export_dirs.len()
        invariant
            i <= export_dirs@.len(),
            export_dirs@.len() == holds_entries@.len(),
            forall|j: int| 0 <= j < i ==> !(#[trigger] holds_entries@[j] && !sees_spec(
                strings_view(session@),
                export_dirs@[j]@,
            )),
        decreases export_dirs@.len() - i,
    {
        if holds_entries[i] && !sees(session, export_dirs[i].as_str()) {
            let mut s = text::string_from(label);
            text::push_str(&mut s, " applications are installed but this desktop session started before ");
            text::push_str(&mut s, label);
            text::push_str(
                &mut s,
                " was set up, so your launcher does not list them yet. Log out and back in once to see them there; until then, open them from Brokey.",
            );
            return Some(s);
        }
        i = i + 1;
    }
    None
}

// ---------------------------------------------------------------------------
// Choosing the entry to open
// ---------------------------------------------------------------------------

/// A path's components in the order paths compare by: the root, a leading
/// `.`, a `..`, and a name, in that rank; names compare as text.
pub open spec fn normal_parts(segs: Seq<Seq<char>>) -> Seq<(nat, Seq<char>)>
    decreases segs.len(),
{
    if segs.len() == 0 {
        Seq::empty()
    } else {
        let rest = normal_parts(segs.drop_last());
        let s = segs.last();
        if s.len() == 0 || s == "."@ {
            rest
        } else if s == ".."@ {
            rest.push((3nat, Seq::empty()))
        } else {
            rest.push((4nat, s))
        }
    }
}

pub open spec fn path_parts(p: Seq<char>) -> Seq<(nat, Seq<char>)> {
    let segs = text::split(p, '/');
    if p.len() > 0 && p[0] == '/' {
        seq![(1nat, Seq::<char>::empty())] + normal_parts(segs)
    } else if segs.len() > 0 && segs[0] == "."@ {
        seq![(2nat, Seq::<char>::empty())] + normal_parts(segs)
    } else {
        normal_parts(segs)
    }
}

pub open spec fn part_order(a: (nat, Seq<char>), b: (nat, Seq<char>)) -> int {
    if a.0 != b.0 {
        crate::version::order_of_nat(a.0, b.0)
    } else {
        crate::version::lex_order(a.1, b.1)
    }
}

/// Component by component; a path that is a proper prefix of another comes
/// first.
pub open spec fn parts_order(a: Seq<(nat, Seq<char>)>, b: Seq<(nat, Seq<char>)>) -> int
    decreases a.len(),
{
    if a.len() == 0 {
        if b.len() == 0 {
            0
        } else {
            -1
        }
    } else if b.len() == 0 {
        1
    } else if part_order(a[0], b[0]) != 0 {
        part_order(a[0], b[0])
    } else {
        parts_order(a.drop_first(), b.drop_first())
    }
}

/// The order `Path` compares in.
pub open spec fn path_order(a: Seq<char>, b: Seq<char>) -> int {
    parts_order(path_parts(a), path_parts(b))
}

pub proof fn lemma_parts_antisymmetric(a: Seq<(nat, Seq<char>)>, b: Seq<(nat, Seq<char>)>)
    ensures
        parts_order(a, b) == -parts_order(b, a),
    decreases a.len(),
{
    if a.len() > 0 && b.len() > 0 {
        crate::version::lemma_lex_antisymmetric(a[0].1, b[0].1);
        lemma_parts_antisymmetric(a.drop_first(), b.drop_first());
    }
}

pub proof fn lemma_parts_transitive(a: Seq<(nat, Seq<char>)>, b: Seq<(nat, Seq<char>)>, c: Seq<(nat, Seq<char>)>)
    requires
        parts_order(a, b) <= 0,
        parts_order(b, c) <= 0,
    ensures
        parts_order(a, c) <= 0,
        parts_order(a, b) < 0 || parts_order(b, c) < 0 ==> parts_order(a, c) < 0,
    decreases a.len(),
{
    if a.len() > 0 && b.len() > 0 && c.len() > 0 {
        crate::version::lemma_lex_antisymmetric(a[0].1, b[0].1);
        crate::version::lemma_lex_antisymmetric(b[0].1, c[0].1);
        crate::version::lemma_lex_antisymmetric(a[0].1, c[0].1);
        if part_order(a[0], b[0]) <= 0 && part_order(b[0], c[0]) <= 0 && a[0].0 == b[0].0 && b[0].0 == c[0].0 {
            crate::version::lemma_lex_transitive(a[0].1, b[0].1, c[0].1);
        }
        if part_order(a[0], b[0]) == 0 && part_order(b[0], c[0]) == 0 {
            lemma_parts_transitive(a.drop_first(), b.drop_first(), c.drop_first());
        }
    }
}

/// The first of the least paths among those `ok` marks, by position: what
/// a stable sort followed by a search for the first marked one finds.
pub open spec fn first_least(ps: Seq<Seq<char>>, ok: Seq<bool>, n: nat) -> Option<int>
    decreases n,
{
    if n == 0 {
        None
    } else {
        let b = first_least(ps, ok, (n - 1) as nat);
        let i = n - 1;
        if ok[i] && (match b {
            None => true,
            Some(j) => path_order(ps[i], ps[j]) < 0,
        }) {
            Some(i)
        } else {
            b
        }
    }
}

/// The part of a file name before its extension: the whole name when it
/// has no dot but a leading one.
pub open spec fn stem_spec(name: Seq<char>) -> Seq<char>
    decreases name.len(),
{
    match last_dot(name) {
        Some(k) => if k > 0 {
            name.take(k)
        } else {
            name
        },
        None => name,
    }
}

pub open spec fn last_dot(s: Seq<char>) -> Option<int>
    decreases s.len(),
{
    if s.len() == 0 {
        None
    } else if s.last() == '.' {
        Some(s.len() - 1)
    } else {
        last_dot(s.drop_last())
    }
}

/// An entry's file name without `.desktop`, lower-cased; empty when the
/// path has no file name.
pub open spec fn entry_stem(p: Seq<char>) -> Seq<char> {
    match file_name_spec(p) {
        Some(n) => text::lowercase_of(stem_spec(n)),
        None => Seq::empty(),
    }
}

pub open spec fn entry_listed(text_of: Option<Seq<char>>) -> bool {
    match text_of {
        Some(t) => listable_spec(t),
        None => false,
    }
}

/// The names to look for: each lower-cased, the empty ones dropped.
pub open spec fn wants(pref: Seq<Seq<char>>) -> Seq<Seq<char>>
    decreases pref.len(),
{
    if pref.len() == 0 {
        Seq::empty()
    } else {
        let rest = wants(pref.drop_last());
        let w = text::lowercase_of(pref.last());
        if w.len() > 0 {
            rest.push(w)
        } else {
            rest
        }
    }
}

pub open spec fn matches_want(stem: Seq<char>, w: Seq<char>, exact: bool) -> bool {
    if exact {
        stem == w
    } else {
        text::contains_seq(stem, w)
    }
}

pub open spec fn marks(paths: Seq<Seq<char>>, texts: Seq<Option<Seq<char>>>, w: Seq<char>, exact: bool) -> Seq<bool> {
    Seq::new(paths.len(), |i: int| entry_listed(texts[i]) && matches_want(entry_stem(paths[i]), w, exact))
}

/// The first name that some listable entry answers to, and the first least
/// such entry.
pub open spec fn pick_by(paths: Seq<Seq<char>>, texts: Seq<Option<Seq<char>>>, ws: Seq<Seq<char>>, exact: bool) -> Option<int>
    decreases ws.len(),
{
    if ws.len() == 0 {
        None
    } else {
        match first_least(paths, marks(paths, texts, ws[0], exact), paths.len()) {
            Some(i) => Some(i),
            None => pick_by(paths, texts, ws.drop_first(), exact),
        }
    }
}

/// The entry to open: among the listable ones, an exact name match for the
/// first preferred name that has one, else a containing match likewise,
/// else the first listable entry; ties go by path order, then by position.
pub open spec fn choose_spec(paths: Seq<Seq<char>>, texts: Seq<Option<Seq<char>>>, pref: Seq<Seq<char>>) -> Option<int> {
    let ws = wants(pref);
    match pick_by(paths, texts, ws, true) {
        Some(i) => Some(i),
        None => match pick_by(paths, texts, ws, false) {
            Some(i) => Some(i),
            None => first_least(paths, Seq::new(paths.len(), |i: int| entry_listed(texts[i])), paths.len()),
        },
    }
}

proof fn lemma_pick_by(paths: Seq<Seq<char>>, texts: Seq<Option<Seq<char>>>, ws: Seq<Seq<char>>, exact: bool)
    ensures
        pick_by(paths, texts, ws, exact) matches Some(i) ==> 0 <= i < paths.len() && entry_listed(texts[i])
            && exists|k: int| 0 <= k < ws.len() && matches_want(entry_stem(paths[i]), #[trigger] ws[k], exact),
        pick_by(paths, texts, ws, exact) is None ==> forall|i: int, k: int|
            0 <= i < paths.len() && 0 <= k < ws.len() ==> !(entry_listed(texts[i]) && matches_want(
                entry_stem(#[trigger] paths[i]),
                #[trigger] ws[k],
                exact,
            )),
    decreases ws.len(),
{
    if ws.len() > 0 {
        let m = marks(paths, texts, ws[0], exact);
        lemma_first_least(paths, m, paths.len());
        lemma_pick_by(paths, texts, ws.drop_first(), exact);
        match first_least(paths, m, paths.len()) {
            Some(i) => {
                assert(m[i]);
                assert(matches_want(entry_stem(paths[i]), ws[0], exact));
            },
            None => {
                match pick_by(paths, texts, ws.drop_first(), exact) {
                    Some(i) => {
                        let k = choose|k: int|
                            0 <= k < ws.drop_first().len() && matches_want(entry_stem(paths[i]), #[trigger] ws.drop_first()[k], exact);
                        assert(ws[k + 1] == ws.drop_first()[k]);
                    },
                    None => {
                        assert forall|i: int, k: int|
                            0 <= i < paths.len() && 0 <= k < ws.len() implies !(entry_listed(texts[i]) && matches_want(
                            entry_stem(#[trigger] paths[i]),
                            #[trigger] ws[k],
                            exact,
                        )) by {
                            if k == 0 {
                                assert(!m[i]);
                            } else {
                                assert(ws[k] == ws.drop_first()[k - 1]);
                            }
                        }
                    },
                }
            },
        }
    }
}

/// The entry chosen is always a listable one, and a name match wins over
/// everything else: where some listable entry's file name (without
/// `.desktop`, lower-cased) is exactly one of the preferred names, the
/// entry chosen is named exactly after one of them, never one that only
/// contains a name; where none is exact but one contains a name, the
/// entry chosen contains one.
pub proof fn lemma_an_exact_name_wins(paths: Seq<Seq<char>>, texts: Seq<Option<Seq<char>>>, pref: Seq<Seq<char>>)
    requires
        texts.len() == paths.len(),
    ensures
        choose_spec(paths, texts, pref) matches Some(j) ==> 0 <= j < paths.len() && entry_listed(texts[j]),
        (exists|i: int| 0 <= i < paths.len() && entry_listed(texts[i]) && wants(pref).contains(entry_stem(paths[i])))
            ==> (choose_spec(paths, texts, pref) matches Some(j) && wants(pref).contains(entry_stem(paths[j]))),
        (exists|i: int, k: int|
            0 <= i < paths.len() && 0 <= k < wants(pref).len() && entry_listed(texts[i]) && text::contains_seq(
                entry_stem(paths[i]),
                wants(pref)[k],
            )) ==> (choose_spec(paths, texts, pref) matches Some(j) && exists|k: int|
            0 <= k < wants(pref).len() && text::contains_seq(entry_stem(paths[j]), wants(pref)[k])
                || wants(pref).contains(entry_stem(paths[j]))),
        (exists|i: int| 0 <= i < paths.len() && entry_listed(texts[i])) ==> choose_spec(paths, texts, pref) is Some,
{
    let ws = wants(pref);
    lemma_pick_by(paths, texts, ws, true);
    lemma_pick_by(paths, texts, ws, false);
    let all = Seq::new(paths.len(), |i: int| entry_listed(texts[i]));
    lemma_first_least(paths, all, paths.len());
    if exists|i: int| 0 <= i < paths.len() && entry_listed(texts[i]) && ws.contains(entry_stem(paths[i])) {
        let i = choose|i: int| 0 <= i < paths.len() && entry_listed(texts[i]) && ws.contains(entry_stem(paths[i]));
        let k = choose|k: int| 0 <= k < ws.len() && ws[k] == entry_stem(paths[i]);
        assert(matches_want(entry_stem(paths[i]), ws[k], true));
        let j = pick_by(paths, texts, ws, true)->Some_0;
        let k2 = choose|k: int| 0 <= k < ws.len() && matches_want(entry_stem(paths[j]), #[trigger] ws[k], true);
        assert(ws[k2] == entry_stem(paths[j]));
    }
    if exists|i: int, k: int|
        0 <= i < paths.len() && 0 <= k < ws.len() && entry_listed(texts[i]) && text::contains_seq(entry_stem(paths[i]), ws[k]) {
        let (i, k) = choose|i: int, k: int|
            0 <= i < paths.len() && 0 <= k < ws.len() && entry_listed(texts[i]) && text::contains_seq(entry_stem(paths[i]), ws[k]);
        assert(matches_want(entry_stem(paths[i]), ws[k], false));
        match pick_by(paths, texts, ws, true) {
            Some(j) => {
                let k2 = choose|k: int| 0 <= k < ws.len() && matches_want(entry_stem(paths[j]), #[trigger] ws[k], true);
                assert(ws[k2] == entry_stem(paths[j]));
            },
            None => {
                let j = pick_by(paths, texts, ws, false)->Some_0;
                let k2 = choose|k: int| 0 <= k < ws.len() && matches_want(entry_stem(paths[j]), #[trigger] ws[k], false);
                assert(text::contains_seq(entry_stem(paths[j]), ws[k2]));
            },
        }
    }
    if exists|i: int| 0 <= i < paths.len() && entry_listed(texts[i]) {
        let i = choose|i: int| 0 <= i < paths.len() && entry_listed(texts[i]);
        assert(all[i]);
    }
}

pub open spec fn parts_view(v: Seq<(u8, Vec<char>)>) -> Seq<(nat, Seq<char>)> {
    v.map_values(|p: (u8, Vec<char>)| (p.0 as nat, p.1@))
}

fn path_parts_exec(p: &[char]) -> (r: Vec<(u8, Vec<char>)>)
    ensures
        parts_view(r@) == path_parts(p@),
{
    proof {
        reveal_strlit(".");
        reveal_strlit("..");
    }
    let segs = text::split_char(p, '/');
    let ghost sv = text::views(segs@);
    assert(sv.len() == segs@.len());
    let mut r: Vec<(u8, Vec<char>)> = Vec::new();
    let lead: bool = p.len() > 0 && p[0] == '/';
    let cur: bool = !lead && segs.len() > 0 && segs[0].len() == 1 && segs[0][0] == '.';
    if lead {
        r.push((1u8, Vec::new()));
    } else if cur {
        r.push((2u8, Vec::new()));
    }
    proof {
        if !lead && segs@.len() > 0 {
            assert(sv[0] == segs@[0]@);
            if sv[0] == "."@ {
                assert(sv[0].len() == 1 && sv[0][0] == '.');
            }
            if cur {
                assert(sv[0] =~= "."@);
            }
        }
    }
    let ghost head = parts_view(r@);
    assert(head =~= (if lead {
        seq![(1nat, Seq::<char>::empty())]
    } else if cur {
        seq![(2nat, Seq::<char>::empty())]
    } else {
        Seq::empty()
    }));
    let mut i: usize = 0;
    while i < segs.len()
        invariant
            i <= segs@.len(),
            sv == text::views(segs@),
            sv.len() == segs@.len(),
            parts_view(r@) == head + normal_parts(sv.take(i as int)),
        decreases segs@.len() - i,
    {
        proof {
            reveal_strlit(".");
            reveal_strlit("..");
        }
        assert(sv.take(i + 1).drop_last() =~= sv.take(i as int));
        assert(sv[i as int] == segs@[i as int]@);
        let s = &segs[i];
        let ghost before = parts_view(r@);
        if s.len() == 0 || (s.len() == 1 && s[0] == '.') {
            assert(s@.len() == 1 && s@[0] == '.' ==> s@ =~= "."@);
        } else if s.len() == 2 && s[0] == '.' && s[1] == '.' {
            assert(s@ =~= ".."@);
            assert(s@ != "."@);
            r.push((3u8, Vec::new()));
            assert(parts_view(r@) =~= before.push((3nat, Seq::<char>::empty())));
        } else {
            assert(s@ != "."@) by {
                if s@ == "."@ {
                    assert(s@.len() == 1);
                }
            }
            assert(s@ != ".."@) by {
                if s@ == ".."@ {
                    assert(s@.len() == 2 && s@[0] == '.' && s@[1] == '.');
                }
            }
            r.push((4u8, text::copy_chars(s.as_slice())));
            assert(parts_view(r@) =~= before.push((4nat, s@)));
        }
        i = i + 1;
    }
    assert(sv.take(sv.len() as int) =~= sv);
    r
}

fn parts_compare(a: &Vec<(u8, Vec<char>)>, b: &Vec<(u8, Vec<char>)>) -> (r: i8)
    ensures
        r as int == parts_order(parts_view(a@), parts_view(b@)),
{
    let ghost av = parts_view(a@);
    let ghost bv = parts_view(b@);
    let mut i: usize = 0;
    assert(av.skip(0) =~= av);
    assert(bv.skip(0) =~= bv);
    while i < a.len() && i < b.len()
        invariant
            i <= a@.len(),
            i <= b@.len(),
            av == parts_view(a@),
            bv == parts_view(b@),
            parts_order(av, bv) == parts_order(av.skip(i as int), bv.skip(i as int)),
        decreases a@.len() - i,
    {
        assert(av.skip(i as int)[0] == av[i as int]);
        assert(bv.skip(i as int)[0] == bv[i as int]);
        let c: i8 = if a[i].0 < b[i].0 {
            -1
        } else if a[i].0 > b[i].0 {
            1
        } else {
            crate::version::lex_compare(a[i].1.as_slice(), b[i].1.as_slice())
        };
        if c != 0 {
            return c;
        }
        assert(av.skip(i as int).drop_first() =~= av.skip(i + 1));
        assert(bv.skip(i as int).drop_first() =~= bv.skip(i + 1));
        i = i + 1;
    }
    if i == a.len() {
        if i == b.len() {
            0
        } else {
            -1
        }
    } else {
        1
    }
}

fn least(parts: &Vec<Vec<(u8, Vec<char>)>>, ok: &Vec<bool>, Ghost(ps): Ghost<Seq<Seq<char>>>) -> (r: Option<usize>)
    requires
        parts@.len() == ok@.len(),
        ps.len() == parts@.len(),
        forall|i: int| 0 <= i < ps.len() ==> parts_view(#[trigger] parts@[i]@) == path_parts(ps[i]),
    ensures
        match r {
            Some(i) => first_least(ps, ok@, ps.len()) == Some(i as int) && i < ps.len(),
            None => first_least(ps, ok@, ps.len()) is None,
        },
{
    let mut best: Option<usize> = None;
    let mut i: usize = 0;
    while i < parts.len()
        invariant
            i <= parts@.len(),
            parts@.len() == ok@.len(),
            ps.len() == parts@.len(),
            forall|k: int| 0 <= k < ps.len() ==> parts_view(#[trigger] parts@[k]@) == path_parts(ps[k]),
            match best {
                Some(b) => first_least(ps, ok@, i as nat) == Some(b as int) && b < i,
                None => first_least(ps, ok@, i as nat) is None,
            },
        decreases parts@.len() - i,
    {
        if ok[i] {
            let smaller = match best {
                None => true,
                Some(b) => {
                    assert(parts_view(parts@[i as int]@) == path_parts(ps[i as int]));
                    assert(parts_view(parts@[b as int]@) == path_parts(ps[b as int]));
                    parts_compare(&parts[i], &parts[b]) < 0
                },
            };
            if smaller {
                best = Some(i);
            }
        }
        i = i + 1;
    }
    best
}

fn last_dot_exec(s: &[char]) -> (r: Option<usize>)
    ensures
        match r {
            Some(k) => last_dot(s@) == Some(k as int) && k < s@.len(),
            None => last_dot(s@) is None,
        },
{
    let mut n: usize = s.len();
    assert(s@.take(n as int) =~= s@);
    while n > 0 && s[n - 1] != '.'
        invariant
            n <= s@.len(),
            last_dot(s@.take(n as int)) == last_dot(s@),
        decreases n,
    {
        assert(s@.take(n as int).drop_last() =~= s@.take(n - 1));
        n = n - 1;
    }
    if n == 0 {
        assert(s@.take(0) =~= Seq::<char>::empty());
        None
    } else {
        assert(s@.take(n as int).last() == s@[n - 1]);
        Some(n - 1)
    }
}

fn entry_stem_exec(p: &str) -> (r: Vec<char>)
    ensures
        r@ == entry_stem(p@),
{
    match file_name(p) {
        Some(n) => {
            let nc = text::chars(n.as_str());
            let stem = match last_dot_exec(nc.as_slice()) {
                Some(k) => if k > 0 {
                    let t = text::slice_chars(nc.as_slice(), 0, k);
                    assert(t@ =~= n@.take(k as int));
                    t
                } else {
                    nc
                },
                None => nc,
            };
            let low = text::lowercase(text::string_of(stem.as_slice()).as_str());
            text::chars(low.as_str())
        },
        None => Vec::new(),
    }
}

fn wants_exec(pref: &[&str]) -> (r: Vec<Vec<char>>)
    ensures
        text::views(r@) == wants(pref@.map_values(|s: &str| s@)),
{
    let ghost pv = pref@.map_values(|s: &str| s@);
    let mut r: Vec<Vec<char>> = Vec::new();
    let mut i: usize = 0;
    while i < pref.len()
        invariant
            i <= pref@.len(),
            pv == pref@.map_values(|s: &str| s@),
            text::views(r@) == wants(pv.take(i as int)),
        decreases pref@.len() - i,
    {
        assert(pv.take(i + 1).drop_last() =~= pv.take(i as int));
        assert(pv.take(i + 1).last() == pref@[i as int]@);
        let w = text::lowercase(pref[i]);
        let wc = text::chars(w.as_str());
        if wc.len() > 0 {
            let ghost before = text::views(r@);
            r.push(wc);
            assert(text::views(r@) =~= before.push(wc@));
        }
        i = i + 1;
    }
    assert(pv.take(pref@.len() as int) =~= pv);
    r
}

fn matches_exec(stem: &[char], w: &[char], exact: bool) -> (r: bool)
    ensures
        r == matches_want(stem@, w@, exact),
{
    if exact {
        text::eq(stem, w)
    } else {
        text::contains(stem, w)
    }
}

pub open spec fn entry_paths_of(entries: Seq<(String, Option<String>)>) -> Seq<Seq<char>> {
    entries.map_values(|e: (String, Option<String>)| e.0@)
}

pub open spec fn entry_texts_of(entries: Seq<(String, Option<String>)>) -> Seq<Option<Seq<char>>> {
    entries.map_values(|e: (String, Option<String>)| crate::model::opt_view(e.1))
}

fn pick_by_exec(
    entries: &Vec<(String, Option<String>)>,
    parts: &Vec<Vec<(u8, Vec<char>)>>,
    listed: &Vec<bool>,
    stems: &Vec<Vec<char>>,
    ws: &Vec<Vec<char>>,
    exact: bool,
) -> (r: Option<usize>)
    requires
        parts@.len() == entries@.len(),
        listed@.len() == entries@.len(),
        stems@.len() == entries@.len(),
        forall|i: int| 0 <= i < entries@.len() ==> parts_view(#[trigger] parts@[i]@) == path_parts(entries@[i].0@),
        forall|i: int| 0 <= i < entries@.len() ==> #[trigger] listed@[i] == entry_listed(crate::model::opt_view(entries@[i].1)),
        forall|i: int| 0 <= i < entries@.len() ==> #[trigger] stems@[i]@ == entry_stem(entries@[i].0@),
    ensures
        r matches Some(i) ==> i < entries@.len(),
        match r {
            Some(i) => pick_by(entry_paths_of(entries@), entry_texts_of(entries@), text::views(ws@), exact) == Some(i as int),
            None => pick_by(entry_paths_of(entries@), entry_texts_of(entries@), text::views(ws@), exact) is None,
        },
{
    let ghost ps = entry_paths_of(entries@);
    let ghost ts = entry_texts_of(entries@);
    let ghost wv = text::views(ws@);
    let mut k: usize = 0;
    assert(wv.skip(0) =~= wv);
    while k < ws.len()
        invariant
            k <= ws@.len(),
            wv == text::views(ws@),
            ps == entry_paths_of(entries@),
            ts == entry_texts_of(entries@),
            parts@.len() == entries@.len(),
            listed@.len() == entries@.len(),
            stems@.len() == entries@.len(),
            forall|i: int| 0 <= i < entries@.len() ==> parts_view(#[trigger] parts@[i]@) == path_parts(entries@[i].0@),
            forall|i: int| 0 <= i < entries@.len() ==> #[trigger] listed@[i] == entry_listed(crate::model::opt_view(entries@[i].1)),
            forall|i: int| 0 <= i < entries@.len() ==> #[trigger] stems@[i]@ == entry_stem(entries@[i].0@),
            pick_by(ps, ts, wv, exact) == pick_by(ps, ts, wv.skip(k as int), exact),
        decreases ws@.len() - k,
    {
        let mut ok: Vec<bool> = Vec::new();
        let mut i: usize = 0;
        while i < entries.len()
            invariant
                i <= entries@.len(),
                k < ws@.len(),
                wv == text::views(ws@),
                ps == entry_paths_of(entries@),
                ts == entry_texts_of(entries@),
                listed@.len() == entries@.len(),
                stems@.len() == entries@.len(),
                forall|j: int| 0 <= j < entries@.len() ==> #[trigger] listed@[j] == entry_listed(crate::model::opt_view(entries@[j].1)),
                forall|j: int| 0 <= j < entries@.len() ==> #[trigger] stems@[j]@ == entry_stem(entries@[j].0@),
                ok@ =~= marks(ps, ts, wv[k as int], exact).take(i as int),
            decreases entries@.len() - i,
        {
            assert(wv[k as int] == ws@[k as int]@);
            let m = listed[i] && matches_exec(stems[i].as_slice(), ws[k].as_slice(), exact);
            ok.push(m);
            i = i + 1;
        }
        assert(ok@ =~= marks(ps, ts, wv[k as int], exact));
        let found = least(parts, &ok, Ghost(ps));
        assert(wv.skip(k as int)[0] == wv[k as int]);
        assert(wv.skip(k as int).drop_first() =~= wv.skip(k + 1));
        match found {
            Some(i) => {
                return Some(i);
            },
            None => {},
        }
        k = k + 1;
    }
    None
}

/// The entry to open among several, each with the text of its file where
/// it could be read: one a launcher would list (a `Type=Application` entry
/// that is neither `NoDisplay` nor `Hidden`), and among those the one whose
/// file name is closest to what the package is called. `preferred` is tried
/// in order against the file name without `.desktop`, case-insensitively:
/// an exact match first, then one that contains it. Otherwise the first
/// listable entry, in path order so the answer does not depend on the
/// order a database wrote.
pub fn choose_entry(entries: Vec<(String, Option<String>)>, preferred: &[&str]) -> (r: Option<String>)
    ensures
        match choose_spec(
            entry_paths_of(entries@),
            entry_texts_of(entries@),
            preferred@.map_values(|s: &str| s@),
        ) {
            Some(i) => r matches Some(p) && p@ == entries@[i].0@,
            None => r is None,
        },
{
    let ghost ps = entry_paths_of(entries@);
    let ghost ts = entry_texts_of(entries@);
    let mut parts: Vec<Vec<(u8, Vec<char>)>> = Vec::new();
    let mut listed: Vec<bool> = Vec::new();
    let mut stems: Vec<Vec<char>> = Vec::new();
    let mut i: usize = 0;
    while i < entries.len()
        invariant
            i <= entries@.len(),
            parts@.len() == i,
            listed@.len() == i,
            stems@.len() == i,
            forall|j: int| 0 <= j < i ==> parts_view(#[trigger] parts@[j]@) == path_parts(entries@[j].0@),
            forall|j: int| 0 <= j < i ==> #[trigger] listed@[j] == entry_listed(crate::model::opt_view(entries@[j].1)),
            forall|j: int| 0 <= j < i ==> #[trigger] stems@[j]@ == entry_stem(entries@[j].0@),
        decreases entries@.len() - i,
    {
        let pc = text::chars(entries[i].0.as_str());
        parts.push(path_parts_exec(pc.as_slice()));
        let l = match &entries[i].1 {
            Some(t) => listable_text(t.as_str()),
            None => false,
        };
        listed.push(l);
        stems.push(entry_stem_exec(entries[i].0.as_str()));
        i = i + 1;
    }
    let ws = wants_exec(preferred);
    let chosen = match pick_by_exec(&entries, &parts, &listed, &stems, &ws, true) {
        Some(k) => Some(k),
        None => match pick_by_exec(&entries, &parts, &listed, &stems, &ws, false) {
            Some(k) => Some(k),
            None => {
                let ghost all = Seq::new(ps.len(), |j: int| entry_listed(ts[j]));
                assert(listed@ =~= all);
                least(&parts, &listed, Ghost(ps))
            },
        },
    };
    match chosen {
        Some(k) => Some(entries[k].0.clone()),
        None => None,
    }
}

/// What `first_least` finds is marked and comes no later in path order than
/// any marked path; when it finds nothing, nothing is marked.
pub proof fn lemma_first_least(ps: Seq<Seq<char>>, ok: Seq<bool>, n: nat)
    requires
        n <= ps.len(),
        n <= ok.len(),
    ensures
        first_least(ps, ok, n) matches Some(i) ==> 0 <= i < n && ok[i] && forall|j: int|
            0 <= j < n && #[trigger] ok[j] ==> path_order(ps[i], ps[j]) <= 0,
        first_least(ps, ok, n) is None ==> forall|j: int| 0 <= j < n ==> !#[trigger] ok[j],
    decreases n,
{
    if n > 0 {
        lemma_first_least(ps, ok, (n - 1) as nat);
        let i = n - 1;
        let b = first_least(ps, ok, (n - 1) as nat);
        lemma_parts_antisymmetric(path_parts(ps[i]), path_parts(ps[i]));
        match b {
            Some(k) => {
                lemma_parts_antisymmetric(path_parts(ps[i]), path_parts(ps[k]));
                if ok[i] && path_order(ps[i], ps[k]) < 0 {
                    assert forall|j: int| 0 <= j < n && #[trigger] ok[j] implies path_order(ps[i], ps[j]) <= 0 by {
                        if j < n - 1 {
                            lemma_parts_transitive(path_parts(ps[i]), path_parts(ps[k]), path_parts(ps[j]));
                        }
                    }
                }
            },
            None => {},
        }
    }
}

/// The entry chosen is always one a launcher would list.
pub proof fn lemma_chosen_is_listable(paths: Seq<Seq<char>>, texts: Seq<Option<Seq<char>>>, pref: Seq<Seq<char>>)
    requires
        paths.len() == texts.len(),
    ensures
        choose_spec(paths, texts, pref) matches Some(i) ==> 0 <= i < paths.len() && entry_listed(texts[i]),
{
    let ws = wants(pref);
    lemma_pick_by_listed(paths, texts, ws, true);
    lemma_pick_by_listed(paths, texts, ws, false);
    lemma_first_least(paths, Seq::new(paths.len(), |i: int| entry_listed(texts[i])), paths.len());
}

proof fn lemma_pick_by_listed(paths: Seq<Seq<char>>, texts: Seq<Option<Seq<char>>>, ws: Seq<Seq<char>>, exact: bool)
    requires
        paths.len() == texts.len(),
    ensures
        pick_by(paths, texts, ws, exact) matches Some(i) ==> 0 <= i < paths.len() && entry_listed(texts[i]),
    decreases ws.len(),
{
    if ws.len() > 0 {
        lemma_first_least(paths, marks(paths, texts, ws[0], exact), paths.len());
        lemma_pick_by_listed(paths, texts, ws.drop_first(), exact);
    }
}

} // verus!
