//! The closed list: what the helper will run as root, and nothing else.
//!
//! Every step a plan sends to the helper is checked here before the first one
//! starts, so a plan with one bad step is refused whole. A program is named,
//! not a path; a verb comes from a short list; an option from a shorter one;
//! a name is letters, digits and a few marks and never starts with a dash; a
//! package file is an absolute path with no `..` under a directory the store
//! may install from.

use vstd::prelude::*;
use crate::text;
use crate::model::{Command, Plan, Step, strings_view, strings_chars};

verus! {

// ---------------------------------------------------------------------------
// Word lists
// ---------------------------------------------------------------------------

pub open spec fn strs_view(v: Seq<&str>) -> Seq<Seq<char>> {
    v.map_values(|s: &str| s@)
}

pub open spec fn allowed_env() -> Seq<Seq<char>> {
    seq!["DEBIAN_FRONTEND"@, "LC_ALL"@, "LANG"@]
}

pub open spec fn allowed_programs() -> Seq<Seq<char>> {
    seq!["pacman"@, "apt-get"@, "dnf"@, "snap"@, "flatpak"@, "chwd"@, "rpm"@, "dpkg"@]
}

pub open spec fn system_package_dirs() -> Seq<Seq<char>> {
    seq!["/var/cache/pacman/pkg"@, "/var/cache/apt/archives"@]
}

pub open spec fn pacman_verbs() -> Seq<Seq<char>> {
    seq!["-S"@, "-Sy"@, "-Syu"@, "-Rs"@, "-U"@]
}

pub open spec fn pacman_options() -> Seq<Seq<char>> {
    seq!["--noconfirm"@, "--needed"@, "--asdeps"@]
}

pub open spec fn apt_verbs() -> Seq<Seq<char>> {
    seq!["install"@, "remove"@, "update"@, "upgrade"@]
}

pub open spec fn apt_options() -> Seq<Seq<char>> {
    seq!["-y"@, "--only-upgrade"@]
}

pub open spec fn dnf_verbs() -> Seq<Seq<char>> {
    seq!["install"@, "remove"@, "upgrade"@, "makecache"@]
}

pub open spec fn dnf_options() -> Seq<Seq<char>> {
    seq!["-y"@]
}

pub open spec fn snap_verbs() -> Seq<Seq<char>> {
    seq!["install"@, "remove"@, "refresh"@]
}

pub open spec fn snap_options() -> Seq<Seq<char>> {
    seq!["--classic"@]
}

pub open spec fn flatpak_verbs() -> Seq<Seq<char>> {
    seq!["install"@, "uninstall"@, "update"@]
}

pub open spec fn flatpak_options() -> Seq<Seq<char>> {
    seq!["-y"@, "--noninteractive"@, "--system"@]
}

/// Punctuation a pacman, snap or chwd name may hold beside letters and digits.
pub open spec fn name_marks() -> Seq<char> {
    "@._+-"@
}

/// apt also takes `pkg:amd64`, `pkg=1.2-3` and `~`.
pub open spec fn apt_name_marks() -> Seq<char> {
    "@._+-:=~"@
}

/// dnf takes `name:stream` for modules.
pub open spec fn dnf_name_marks() -> Seq<char> {
    "@._+-:"@
}

/// A ref, an id or a remote name.
pub open spec fn flatpak_ref_marks() -> Seq<char> {
    "./_-"@
}

fn words_of(v: Vec<&'static str>) -> (r: Vec<&'static str>)
    ensures
        r@ == v@,
{
    v
}

fn env_words() -> (r: Vec<&'static str>)
    ensures
        strs_view(r@) == allowed_env(),
{
    let r = words_of(vec!["DEBIAN_FRONTEND", "LC_ALL", "LANG"]);
    assert(strs_view(r@) =~= allowed_env());
    r
}

fn program_words() -> (r: Vec<&'static str>)
    ensures
        strs_view(r@) == allowed_programs(),
{
    let r = words_of(vec!["pacman", "apt-get", "dnf", "snap", "flatpak", "chwd", "rpm", "dpkg"]);
    assert(strs_view(r@) =~= allowed_programs());
    r
}

fn pacman_verb_words() -> (r: Vec<&'static str>)
    ensures
        strs_view(r@) == pacman_verbs(),
{
    let r = words_of(vec!["-S", "-Sy", "-Syu", "-Rs", "-U"]);
    assert(strs_view(r@) =~= pacman_verbs());
    r
}

fn pacman_option_words() -> (r: Vec<&'static str>)
    ensures
        strs_view(r@) == pacman_options(),
{
    let r = words_of(vec!["--noconfirm", "--needed", "--asdeps"]);
    assert(strs_view(r@) =~= pacman_options());
    r
}

fn apt_verb_words() -> (r: Vec<&'static str>)
    ensures
        strs_view(r@) == apt_verbs(),
{
    let r = words_of(vec!["install", "remove", "update", "upgrade"]);
    assert(strs_view(r@) =~= apt_verbs());
    r
}

fn apt_option_words() -> (r: Vec<&'static str>)
    ensures
        strs_view(r@) == apt_options(),
{
    let r = words_of(vec!["-y", "--only-upgrade"]);
    assert(strs_view(r@) =~= apt_options());
    r
}

fn dnf_verb_words() -> (r: Vec<&'static str>)
    ensures
        strs_view(r@) == dnf_verbs(),
{
    let r = words_of(vec!["install", "remove", "upgrade", "makecache"]);
    assert(strs_view(r@) =~= dnf_verbs());
    r
}

fn dnf_option_words() -> (r: Vec<&'static str>)
    ensures
        strs_view(r@) == dnf_options(),
{
    let r = words_of(vec!["-y"]);
    assert(strs_view(r@) =~= dnf_options());
    r
}

fn snap_verb_words() -> (r: Vec<&'static str>)
    ensures
        strs_view(r@) == snap_verbs(),
{
    let r = words_of(vec!["install", "remove", "refresh"]);
    assert(strs_view(r@) =~= snap_verbs());
    r
}

fn snap_option_words() -> (r: Vec<&'static str>)
    ensures
        strs_view(r@) == snap_options(),
{
    let r = words_of(vec!["--classic"]);
    assert(strs_view(r@) =~= snap_options());
    r
}

fn flatpak_verb_words() -> (r: Vec<&'static str>)
    ensures
        strs_view(r@) == flatpak_verbs(),
{
    let r = words_of(vec!["install", "uninstall", "update"]);
    assert(strs_view(r@) =~= flatpak_verbs());
    r
}

fn flatpak_option_words() -> (r: Vec<&'static str>)
    ensures
        strs_view(r@) == flatpak_options(),
{
    let r = words_of(vec!["-y", "--noninteractive", "--system"]);
    assert(strs_view(r@) =~= flatpak_options());
    r
}

// ---------------------------------------------------------------------------
// Lists in sentences
// ---------------------------------------------------------------------------

/// Words joined by a separator.
pub open spec fn join(words: Seq<Seq<char>>, sep: Seq<char>) -> Seq<char>
    decreases words.len(),
{
    if words.len() == 0 {
        Seq::empty()
    } else if words.len() == 1 {
        words[0]
    } else {
        join(words.drop_last(), sep) + sep + words.last()
    }
}

/// `a`, `a or b`, `a, b or c`.
pub open spec fn list_text(words: Seq<Seq<char>>) -> Seq<char> {
    if words.len() == 0 {
        Seq::empty()
    } else if words.len() == 1 {
        words[0]
    } else {
        join(words.drop_last(), ", "@) + " or "@ + words.last()
    }
}

fn push_join(s: &mut String, words: &Vec<&str>, upto: usize, sep: &str)
    requires
        upto <= words@.len(),
    ensures
        final(s)@ == old(s)@ + join(strs_view(words@).take(upto as int), sep@),
{
    let ghost w = strs_view(words@);
    let ghost start = s@;
    let mut i: usize = 0;
    while i < upto
        invariant
            upto <= words@.len(),
            w == strs_view(words@),
            i <= upto,
            s@ == start + join(w.take(i as int), sep@),
        decreases upto - i,
    {
        if i > 0 {
            text::push_str(s, sep);
        }
        text::push_str(s, words[i]);
        proof {
            let t = w.take(i + 1);
            assert(t.drop_last() =~= w.take(i as int));
            assert(t.last() == words@[i as int]@);
            if i == 0 {
                assert(w.take(0) =~= Seq::<Seq<char>>::empty());
            }
        }
        assert(s@ =~= start + join(w.take(i + 1), sep@));
        i = i + 1;
    }
}

fn push_list(s: &mut String, words: &Vec<&str>)
    ensures
        final(s)@ == old(s)@ + list_text(strs_view(words@)),
{
    let ghost w = strs_view(words@);
    let n = words.len();
    if n == 0 {
        assert(s@ =~= old(s)@ + list_text(w));
        return;
    }
    if n == 1 {
        text::push_str(s, words[0]);
        return;
    }
    push_join(s, words, n - 1, ", ");
    text::push_str(s, " or ");
    text::push_str(s, words[n - 1]);
    assert(w.take(n - 1) =~= w.drop_last());
    assert(s@ =~= old(s)@ + list_text(w));
}

// ---------------------------------------------------------------------------
// Arguments
// ---------------------------------------------------------------------------

pub open spec fn dash(a: Seq<char>) -> bool {
    a.len() > 0 && a[0] == '-'
}

/// The arguments that look like options, in order.
pub open spec fn options_of(args: Seq<Seq<char>>) -> Seq<Seq<char>>
    decreases args.len(),
{
    if args.len() == 0 {
        Seq::empty()
    } else if dash(args.last()) {
        options_of(args.drop_last()).push(args.last())
    } else {
        options_of(args.drop_last())
    }
}

/// The other arguments, in order.
pub open spec fn positionals_of(args: Seq<Seq<char>>) -> Seq<Seq<char>>
    decreases args.len(),
{
    if args.len() == 0 {
        Seq::empty()
    } else if !dash(args.last()) {
        positionals_of(args.drop_last()).push(args.last())
    } else {
        positionals_of(args.drop_last())
    }
}

pub open spec fn has_control(s: Seq<char>) -> bool {
    s.contains('\0') || s.contains('\n')
}

/// The first word of `words` that `allowed` does not hold.
pub open spec fn first_not_in(words: Seq<Seq<char>>, allowed: Seq<Seq<char>>) -> Option<Seq<char>>
    decreases words.len(),
{
    if words.len() == 0 {
        None
    } else if !allowed.contains(words[0]) {
        Some(words[0])
    } else {
        first_not_in(words.drop_first(), allowed)
    }
}

fn split_args(args: &Vec<Vec<char>>, from: usize) -> (r: (Vec<Vec<char>>, Vec<Vec<char>>))
    requires
        from <= args@.len(),
    ensures
        text::views(r.0@) == options_of(text::views(args@).skip(from as int)),
        text::views(r.1@) == positionals_of(text::views(args@).skip(from as int)),
{
    let ghost a = text::views(args@).skip(from as int);
    let mut opts: Vec<Vec<char>> = Vec::new();
    let mut pos: Vec<Vec<char>> = Vec::new();
    let mut i: usize = from;
    while i < args.len()
        invariant
            from <= i <= args@.len(),
            a == text::views(args@).skip(from as int),
            text::views(opts@) == options_of(a.take(i - from)),
            text::views(pos@) == positionals_of(a.take(i - from)),
        decreases args@.len() - i,
    {
        let arg = text::copy_chars(args[i].as_slice());
        proof {
            let t = a.take(i - from + 1);
            assert(t.drop_last() =~= a.take(i - from));
            assert(t.last() == args@[i as int]@);
        }
        if arg.len() > 0 && arg[0] == '-' {
            opts.push(arg);
            assert(text::views(opts@) =~= text::views(opts@.drop_last()).push(arg@));
        } else {
            pos.push(arg);
            assert(text::views(pos@) =~= text::views(pos@.drop_last()).push(arg@));
        }
        i = i + 1;
    }
    assert(a.take(args@.len() - from) =~= a);
    (opts, pos)
}

fn member(w: &[char], words: &Vec<&str>) -> (r: bool)
    ensures
        r == strs_view(words@).contains(w@),
{
    let ghost ws = strs_view(words@);
    let mut i: usize = 0;
    while i < words.len()
        invariant
            ws == strs_view(words@),
            i <= words@.len(),
            forall|j: int| 0 <= j < i ==> ws[j] != w@,
        decreases words@.len() - i,
    {
        if text::eq_str(w, words[i]) {
            assert(ws[i as int] == w@);
            return true;
        }
        i = i + 1;
    }
    false
}

fn first_absent(items: &Vec<Vec<char>>, words: &Vec<&str>) -> (r: Option<usize>)
    ensures
        match r {
            Some(i) => i < items@.len() && first_not_in(text::views(items@), strs_view(words@))
                == Some(items@[i as int]@),
            None => first_not_in(text::views(items@), strs_view(words@)) is None,
        },
{
    let ghost v = text::views(items@);
    let ghost ws = strs_view(words@);
    let mut i: usize = 0;
    assert(v.skip(0) =~= v);
    while i < items.len()
        invariant
            v == text::views(items@),
            ws == strs_view(words@),
            i <= items@.len(),
            first_not_in(v, ws) == first_not_in(v.skip(i as int), ws),
        decreases items@.len() - i,
    {
        assert(v.skip(i as int)[0] == items@[i as int]@);
        if !member(items[i].as_slice(), words) {
            return Some(i);
        }
        assert(v.skip(i as int).drop_first() =~= v.skip(i + 1));
        i = i + 1;
    }
    None
}

// ---------------------------------------------------------------------------
// Names
// ---------------------------------------------------------------------------

pub open spec fn name_char_ok(c: char, marks: Seq<char>) -> bool {
    text::is_alnum(c) || marks.contains(c)
}

/// The marks as a sentence lists them: one space between each.
pub open spec fn spaced(marks: Seq<char>) -> Seq<char>
    decreases marks.len(),
{
    if marks.len() == 0 {
        Seq::empty()
    } else if marks.len() == 1 {
        seq![marks[0]]
    } else {
        spaced(marks.drop_last()) + seq![' ', marks.last()]
    }
}

pub open spec fn name_check(value: Seq<char>, marks: Seq<char>) -> Result<(), Seq<char>> {
    if value.len() > 0 && !dash(value) && forall|i: int|
        0 <= i < value.len() ==> name_char_ok(#[trigger] value[i], marks) {
        Ok(())
    } else {
        Err(value + " is not a valid name. A name has letters, digits and "@ + spaced(marks)
            + " and does not start with a dash."@)
    }
}

fn push_spaced(s: &mut String, marks: &[char])
    ensures
        final(s)@ == old(s)@ + spaced(marks@),
{
    let ghost start = s@;
    let mut i: usize = 0;
    while i < marks.len()
        invariant
            i <= marks@.len(),
            s@ == start + spaced(marks@.take(i as int)),
        decreases marks@.len() - i,
    {
        if i > 0 {
            text::push_char(s, ' ');
        }
        text::push_char(s, marks[i]);
        proof {
            let t = marks@.take(i + 1);
            assert(t.drop_last() =~= marks@.take(i as int));
            if i == 0 {
                assert(marks@.take(0) =~= Seq::<char>::empty());
            }
        }
        assert(s@ =~= start + spaced(marks@.take(i + 1)));
        i = i + 1;
    }
    assert(marks@.take(marks@.len() as int) =~= marks@);
}

fn check_name(value: &[char], marks: &str) -> (r: Result<(), String>)
    ensures
        match r {
            Ok(()) => name_check(value@, marks@) is Ok,
            Err(e) => name_check(value@, marks@) == Err::<(), Seq<char>>(e@),
        },
{
    let m = text::chars(marks);
    let mut ok = value.len() > 0 && value[0] != '-';
    let mut i: usize = 0;
    while ok && i < value.len()
        invariant
            m@ == marks@,
            i <= value@.len(),
            ok ==> forall|j: int| 0 <= j < i ==> name_char_ok(#[trigger] value@[j], marks@),
            ok ==> value@.len() > 0 && !dash(value@),
            !ok ==> name_check(value@, marks@) is Err,
        decreases value@.len() - i,
    {
        if !(text::alnum(value[i]) || text::has_char(m.as_slice(), value[i])) {
            ok = false;
        }
        i = i + 1;
    }
    if ok {
        return Ok(());
    }
    let mut s = text::string_of(value);
    text::push_str(&mut s, " is not a valid name. A name has letters, digits and ");
    push_spaced(&mut s, m.as_slice());
    text::push_str(&mut s, " and does not start with a dash.");
    Err(s)
}

/// The first error of `name_check` over `items`.
pub open spec fn names_check(items: Seq<Seq<char>>, marks: Seq<char>) -> Result<(), Seq<char>>
    decreases items.len(),
{
    if items.len() == 0 {
        Ok(())
    } else {
        match name_check(items[0], marks) {
            Err(e) => Err(e),
            Ok(()) => names_check(items.drop_first(), marks),
        }
    }
}

fn check_names(items: &Vec<Vec<char>>, marks: &str) -> (r: Result<(), String>)
    ensures
        match r {
            Ok(()) => names_check(text::views(items@), marks@) is Ok,
            Err(e) => names_check(text::views(items@), marks@) == Err::<(), Seq<char>>(e@),
        },
{
    let ghost v = text::views(items@);
    let mut i: usize = 0;
    assert(v.skip(0) =~= v);
    while i < items.len()
        invariant
            v == text::views(items@),
            i <= items@.len(),
            names_check(v, marks@) == names_check(v.skip(i as int), marks@),
        decreases items@.len() - i,
    {
        assert(v.skip(i as int)[0] == items@[i as int]@);
        match check_name(items[i].as_slice(), marks) {
            Err(e) => {
                return Err(e);
            },
            Ok(()) => {},
        }
        assert(v.skip(i as int).drop_first() =~= v.skip(i + 1));
        i = i + 1;
    }
    Ok(())
}

// ---------------------------------------------------------------------------
// Paths
// ---------------------------------------------------------------------------

pub open spec fn absolute(p: Seq<char>) -> bool {
    p.len() > 0 && p[0] == '/'
}

pub open spec fn kept_piece(x: Seq<char>) -> bool {
    x.len() > 0 && x != seq!['.']
}

/// The pieces between slashes, without empty ones and without `.`.
pub open spec fn kept(pieces: Seq<Seq<char>>) -> Seq<Seq<char>>
    decreases pieces.len(),
{
    if pieces.len() == 0 {
        Seq::empty()
    } else if kept_piece(pieces.last()) {
        kept(pieces.drop_last()).push(pieces.last())
    } else {
        kept(pieces.drop_last())
    }
}

pub open spec fn curdir_start(p: Seq<char>) -> bool {
    !absolute(p) && p.len() >= 1 && p[0] == '.' && (p.len() == 1 || p[1] == '/')
}

/// A path's components as `Path::components` reads them on Unix: the root
/// (written `/`), a leading `.` of a relative path, then every piece that is
/// neither empty nor `.`.
pub open spec fn components(p: Seq<char>) -> Seq<Seq<char>> {
    let head: Seq<Seq<char>> = if absolute(p) {
        seq![seq!['/']]
    } else if curdir_start(p) {
        seq![seq!['.']]
    } else {
        Seq::empty()
    };
    head + kept(text::split(p, '/'))
}

pub open spec fn file_name(p: Seq<char>) -> Option<Seq<char>> {
    let c = components(p);
    if c.len() == 0 {
        None
    } else if c.last() == seq!['/'] || c.last() == seq!['.'] || c.last() == seq!['.', '.'] {
        None
    } else {
        Some(c.last())
    }
}

/// Whether `p` is under one of `dirs`, component by component.
pub open spec fn under_any(p: Seq<char>, dirs: Seq<Seq<char>>) -> bool {
    exists|i: int| 0 <= i < dirs.len() && components(dirs[i]).is_prefix_of(components(p))
}

pub open spec fn file_check(value: Seq<char>, ext: Seq<char>, dirs: Seq<Seq<char>>) -> Result<
    (),
    Seq<char>,
> {
    let normal = absolute(value) && !components(value).contains(seq!['.', '.']);
    let file_ok = match file_name(value) {
        Some(f) => text::contains_seq(f, ext) && !dash(f),
        None => false,
    };
    if normal && file_ok && under_any(value, dirs) {
        Ok(())
    } else {
        Err(value + " is not a "@ + ext + " file under a directory the store may install from ("@
            + join(dirs, ", "@) + ")."@)
    }
}

fn components_of(p: &[char]) -> (r: Vec<Vec<char>>)
    ensures
        text::views(r@) == components(p@),
{
    let pieces = text::split_char(p, '/');
    let ghost ps = text::views(pieces@);
    let mut r: Vec<Vec<char>> = Vec::new();
    let ghost want_head: Seq<Seq<char>> = if absolute(p@) {
        seq![seq!['/']]
    } else if curdir_start(p@) {
        seq![seq!['.']]
    } else {
        Seq::<Seq<char>>::empty()
    };
    if p.len() > 0 && p[0] == '/' {
        let root = vec!['/'];
        assert(root@ =~= seq!['/']);
        r.push(root);
        assert(text::views(r@) =~= want_head);
    } else if p.len() >= 1 && p[0] == '.' && (p.len() == 1 || p[1] == '/') {
        let cur = vec!['.'];
        assert(cur@ =~= seq!['.']);
        r.push(cur);
        assert(text::views(r@) =~= want_head);
    } else {
        assert(text::views(r@) =~= want_head);
    }
    let ghost head = text::views(r@);
    let mut i: usize = 0;
    while i < pieces.len()
        invariant
            ps == text::views(pieces@),
            ps == text::split(p@, '/'),
            i <= pieces@.len(),
            ps.len() == pieces@.len(),
            head + kept(text::split(p@, '/')) == components(p@),
            text::views(r@) == head + kept(ps.take(i as int)),
        decreases pieces@.len() - i,
    {
        let piece = &pieces[i];
        proof {
            let t = ps.take(i + 1);
            assert(t.drop_last() =~= ps.take(i as int));
            assert(t.last() == pieces@[i as int]@);
        }
        if piece.len() > 0 && !(piece.len() == 1 && piece[0] == '.') {
            assert(kept_piece(piece@)) by {
                if piece@ == seq!['.'] {
                    assert(piece@.len() == 1 && piece@[0] == '.');
                }
            }
            r.push(text::copy_chars(piece.as_slice()));
            assert(text::views(r@) =~= text::views(r@.drop_last()).push(piece@));
            assert(head + kept(ps.take(i + 1)) =~= (head + kept(ps.take(i as int))).push(piece@));
        } else {
            if piece.len() == 1 {
                assert(piece@ =~= seq!['.']);
            }
            assert(!kept_piece(piece@));
            assert(kept(ps.take(i + 1)) == kept(ps.take(i as int)));
        }
        i = i + 1;
    }
    assert(ps.take(ps.len() as int) =~= ps);
    r
}

fn same_prefix(a: &Vec<Vec<char>>, b: &Vec<Vec<char>>) -> (r: bool)
    ensures
        r == text::views(a@).is_prefix_of(text::views(b@)),
{
    let ghost va = text::views(a@);
    let ghost vb = text::views(b@);
    if a.len() > b.len() {
        return false;
    }
    let mut i: usize = 0;
    while i < a.len()
        invariant
            va == text::views(a@),
            vb == text::views(b@),
            a@.len() <= b@.len(),
            i <= a@.len(),
            forall|j: int| 0 <= j < i ==> va[j] == vb[j],
        decreases a@.len() - i,
    {
        if !text::eq(a[i].as_slice(), b[i].as_slice()) {
            assert(va[i as int] != vb[i as int]);
            return false;
        }
        i = i + 1;
    }
    assert(va =~= vb.subrange(0, va.len() as int));
    true
}

fn push_dirs(s: &mut String, dirs: &Vec<String>)
    ensures
        final(s)@ == old(s)@ + join(strings_view(dirs@), ", "@),
{
    let ghost w = strings_view(dirs@);
    let ghost start = s@;
    let mut i: usize = 0;
    while i < dirs.len()
        invariant
            w == strings_view(dirs@),
            i <= dirs@.len(),
            s@ == start + join(w.take(i as int), ", "@),
        decreases dirs@.len() - i,
    {
        if i > 0 {
            text::push_str(s, ", ");
        }
        text::push_str(s, dirs[i].as_str());
        proof {
            let t = w.take(i + 1);
            assert(t.drop_last() =~= w.take(i as int));
            assert(t.last() == dirs@[i as int]@);
            if i == 0 {
                assert(w.take(0) =~= Seq::<Seq<char>>::empty());
            }
        }
        assert(s@ =~= start + join(w.take(i + 1), ", "@));
        i = i + 1;
    }
    assert(w.take(w.len() as int) =~= w);
}

fn check_file(value: &[char], ext: &str, allowed: &Allowed) -> (r: Result<(), String>)
    ensures
        match r {
            Ok(()) => file_check(value@, ext@, strings_view(allowed.package_dirs@)) is Ok,
            Err(e) => file_check(value@, ext@, strings_view(allowed.package_dirs@)) == Err::<
                (),
                Seq<char>,
            >(e@),
        },
{
    let ghost dirs = strings_view(allowed.package_dirs@);
    let comps = components_of(value);
    let ghost c = text::views(comps@);
    let mut normal = value.len() > 0 && value[0] == '/';
    let mut i: usize = 0;
    while i < comps.len()
        invariant
            c == text::views(comps@),
            c.len() == comps@.len(),
            i <= comps@.len(),
            normal == (absolute(value@) && forall|j: int| 0 <= j < i ==> c[j] != seq!['.', '.']),
        decreases comps@.len() - i,
    {
        let piece = &comps[i];
        assert(piece@ == c[i as int]);
        if piece.len() == 2 && piece[0] == '.' && piece[1] == '.' {
            assert(piece@ =~= seq!['.', '.']);
            normal = false;
        } else {
            assert(piece@ != seq!['.', '.']);
        }
        i = i + 1;
    }
    assert(normal == (absolute(value@) && !c.contains(seq!['.', '.']))) by {
        if c.contains(seq!['.', '.']) {
            let k = choose|k: int| 0 <= k < c.len() && c[k] == seq!['.', '.'];
            assert(c[k] == seq!['.', '.']);
        }
    }
    let n = comps.len();
    let file_ok = if n == 0 {
        false
    } else {
        let last = &comps[n - 1];
        assert(last@ == c.last());
        let special = (last.len() == 1 && (last[0] == '/' || last[0] == '.')) || (last.len() == 2
            && last[0] == '.' && last[1] == '.');
        assert(special == (c.last() == seq!['/'] || c.last() == seq!['.'] || c.last() == seq![
            '.',
            '.',
        ])) by {
            if c.last() == seq!['/'] || c.last() == seq!['.'] {
                assert(c.last().len() == 1);
                assert(c.last()[0] == '/' || c.last()[0] == '.');
            }
            if c.last() == seq!['.', '.'] {
                assert(c.last().len() == 2);
            }
            if last.len() == 1 && last[0] == '/' {
                assert(last@ =~= seq!['/']);
            }
            if last.len() == 1 && last[0] == '.' {
                assert(last@ =~= seq!['.']);
            }
            if last.len() == 2 && last[0] == '.' && last[1] == '.' {
                assert(last@ =~= seq!['.', '.']);
            }
        }
        if special {
            false
        } else {
            text::contains_str(last.as_slice(), ext) && !(last.len() > 0 && last[0] == '-')
        }
    };
    let mut under = false;
    let mut k: usize = 0;
    while k < allowed.package_dirs.len() && !under
        invariant
            dirs == strings_view(allowed.package_dirs@),
            c == components(value@),
            c == text::views(comps@),
            k <= allowed.package_dirs@.len(),
            under ==> under_any(value@, dirs),
            !under ==> forall|j: int| 0 <= j < k ==> !components(dirs[j]).is_prefix_of(c),
        decreases allowed.package_dirs@.len() - k,
    {
        let d = text::chars(allowed.package_dirs[k].as_str());
        assert(d@ == dirs[k as int]);
        let dc = components_of(d.as_slice());
        if same_prefix(&dc, &comps) {
            assert(components(dirs[k as int]).is_prefix_of(c));
            under = true;
        }
        k = k + 1;
    }
    if normal && file_ok && under {
        return Ok(());
    }
    let mut s = text::string_of(value);
    text::push_str(&mut s, " is not a ");
    text::push_str(&mut s, ext);
    text::push_str(&mut s, " file under a directory the store may install from (");
    push_dirs(&mut s, &allowed.package_dirs);
    text::push_str(&mut s, ").");
    Err(s)
}

/// The first error of `file_check` over `items`.
pub open spec fn files_check(items: Seq<Seq<char>>, ext: Seq<char>, dirs: Seq<Seq<char>>) -> Result<
    (),
    Seq<char>,
>
    decreases items.len(),
{
    if items.len() == 0 {
        Ok(())
    } else {
        match file_check(items[0], ext, dirs) {
            Err(e) => Err(e),
            Ok(()) => files_check(items.drop_first(), ext, dirs),
        }
    }
}

fn check_files(items: &Vec<Vec<char>>, ext: &str, allowed: &Allowed) -> (r: Result<(), String>)
    ensures
        match r {
            Ok(()) => files_check(
                text::views(items@),
                ext@,
                strings_view(allowed.package_dirs@),
            ) is Ok,
            Err(e) => files_check(text::views(items@), ext@, strings_view(allowed.package_dirs@))
                == Err::<(), Seq<char>>(e@),
        },
{
    let ghost v = text::views(items@);
    let ghost dirs = strings_view(allowed.package_dirs@);
    let mut i: usize = 0;
    assert(v.skip(0) =~= v);
    while i < items.len()
        invariant
            v == text::views(items@),
            dirs == strings_view(allowed.package_dirs@),
            i <= items@.len(),
            files_check(v, ext@, dirs) == files_check(v.skip(i as int), ext@, dirs),
        decreases items@.len() - i,
    {
        assert(v.skip(i as int)[0] == items@[i as int]@);
        match check_file(items[i].as_slice(), ext, allowed) {
            Err(e) => {
                return Err(e);
            },
            Ok(()) => {},
        }
        assert(v.skip(i as int).drop_first() =~= v.skip(i + 1));
        i = i + 1;
    }
    Ok(())
}

// ---------------------------------------------------------------------------
// The directories a package file may come from
// ---------------------------------------------------------------------------

/// The directories a package file (`pacman -U`, `dpkg -i`, `rpm -U`, a `.deb`
/// given to `apt-get install`) may come from.
#[derive(Clone, Debug, PartialEq, Eq)]
pub struct Allowed {
    pub package_dirs: Vec<String>,
}

/// `Path::join` for a relative, non-empty second part.
pub open spec fn join_path(a: Seq<char>, b: Seq<char>) -> Seq<char> {
    if a.len() == 0 {
        b
    } else if a.last() == '/' {
        a + b
    } else {
        a + seq!['/'] + b
    }
}

fn push_path(base: &mut String, part: &str)
    ensures
        final(base)@ == join_path(old(base)@, part@),
{
    let b = text::chars(base.as_str());
    if b.len() > 0 && b[b.len() - 1] != '/' {
        text::push_char(base, '/');
    }
    text::push_str(base, part);
}

impl Allowed {
    /// The distribution's own download caches.
    pub fn system() -> (r: Allowed)
        ensures
            strings_view(r.package_dirs@) == system_package_dirs(),
    {
        let mut dirs: Vec<String> = Vec::new();
        dirs.push(text::string_from("/var/cache/pacman/pkg"));
        dirs.push(text::string_from("/var/cache/apt/archives"));
        assert(strings_view(dirs@) =~= system_package_dirs());
        Allowed { package_dirs: dirs }
    }

    /// The system caches plus the store's own download cache under `home`.
    pub fn for_home(home: Option<&str>) -> (r: Allowed)
        ensures
            strings_view(r.package_dirs@) == match home {
                Some(h) => system_package_dirs().push(
                    join_path(join_path(h@, ".cache"@), "bap-store"@),
                ),
                None => system_package_dirs(),
            },
    {
        let mut allowed = Allowed::system();
        match home {
            Some(h) => {
                let mut dir = text::string_from(h);
                push_path(&mut dir, ".cache");
                push_path(&mut dir, "bap-store");
                let ghost before = allowed.package_dirs@;
                allowed.package_dirs.push(dir);
                assert(strings_view(allowed.package_dirs@) =~= strings_view(before).push(dir@));
            },
            None => {},
        }
        allowed
    }
}

// ---------------------------------------------------------------------------
// Programs
// ---------------------------------------------------------------------------

pub open spec fn no_positionals_check(program: Seq<char>, verb: Seq<char>, pos: Seq<Seq<char>>) -> Result<
    (),
    Seq<char>,
> {
    if pos.len() == 0 {
        Ok(())
    } else {
        Err(program + " "@ + verb + " takes no package names."@)
    }
}

/// The verb is the first positional argument; options may stand on either
/// side of it; the other positionals follow.
pub open spec fn verb_split(
    program: Seq<char>,
    args: Seq<Seq<char>>,
    verbs: Seq<Seq<char>>,
    options: Seq<Seq<char>>,
) -> Result<(Seq<char>, Seq<Seq<char>>), Seq<char>> {
    let opts = options_of(args);
    let pos = positionals_of(args);
    if pos.len() == 0 || !verbs.contains(pos[0]) {
        Err(program + " must be given one of "@ + list_text(verbs) + "."@)
    } else {
        match first_not_in(opts, options) {
            Some(o) => Err("The option "@ + o + " is not allowed for "@ + program + " "@ + pos[0]
                + "."@),
            None => Ok((pos[0], pos.drop_first())),
        }
    }
}

pub open spec fn pacman_check(args: Seq<Seq<char>>, dirs: Seq<Seq<char>>) -> Result<(), Seq<char>> {
    if args.len() == 0 || !pacman_verbs().contains(args[0]) {
        Err("pacman must be given one of "@ + list_text(pacman_verbs()) + " as its first argument."@)
    } else {
        let verb = args[0];
        let opts = options_of(args.drop_first());
        let pos = positionals_of(args.drop_first());
        match first_not_in(opts, pacman_options()) {
            Some(o) => Err("The option "@ + o + " is not allowed for pacman "@ + verb + "."@),
            None => {
                if verb == "-U"@ {
                    if pos.len() == 0 {
                        Err("pacman -U needs at least one package file."@)
                    } else {
                        files_check(pos, ".pkg.tar"@, dirs)
                    }
                } else if pos.len() == 0 && (verb == "-S"@ || verb == "-Rs"@) {
                    Err("pacman "@ + verb + " needs at least one package name."@)
                } else {
                    names_check(pos, name_marks())
                }
            },
        }
    }
}

/// An apt-get argument is a `.deb` file when it is a path, else a name.
pub open spec fn apt_items_check(items: Seq<Seq<char>>, dirs: Seq<Seq<char>>) -> Result<(), Seq<char>>
    decreases items.len(),
{
    if items.len() == 0 {
        Ok(())
    } else {
        let first = if items[0].len() > 0 && items[0][0] == '/' {
            file_check(items[0], ".deb"@, dirs)
        } else {
            name_check(items[0], apt_name_marks())
        };
        match first {
            Err(e) => Err(e),
            Ok(()) => apt_items_check(items.drop_first(), dirs),
        }
    }
}

pub open spec fn apt_check(args: Seq<Seq<char>>, dirs: Seq<Seq<char>>) -> Result<(), Seq<char>> {
    match verb_split("apt-get"@, args, apt_verbs(), apt_options()) {
        Err(e) => Err(e),
        Ok((verb, pos)) => {
            if verb == "install"@ {
                if pos.len() == 0 {
                    Err("apt-get install needs at least one package name or .deb file."@)
                } else {
                    apt_items_check(pos, dirs)
                }
            } else if verb == "remove"@ {
                if pos.len() == 0 {
                    Err("apt-get remove needs at least one package name."@)
                } else {
                    names_check(pos, apt_name_marks())
                }
            } else {
                no_positionals_check("apt-get"@, verb, pos)
            }
        },
    }
}

pub open spec fn dnf_check(args: Seq<Seq<char>>) -> Result<(), Seq<char>> {
    match verb_split("dnf"@, args, dnf_verbs(), dnf_options()) {
        Err(e) => Err(e),
        Ok((verb, pos)) => {
            if (verb == "install"@ || verb == "remove"@) && pos.len() == 0 {
                Err("dnf "@ + verb + " needs at least one package name."@)
            } else if verb == "makecache"@ {
                no_positionals_check("dnf"@, verb, pos)
            } else {
                names_check(pos, dnf_name_marks())
            }
        },
    }
}

pub open spec fn snap_check(args: Seq<Seq<char>>) -> Result<(), Seq<char>> {
    match verb_split("snap"@, args, snap_verbs(), snap_options()) {
        Err(e) => Err(e),
        Ok((verb, pos)) => {
            if pos.len() == 0 && verb != "refresh"@ {
                Err("snap "@ + verb + " needs at least one snap name."@)
            } else {
                names_check(pos, name_marks())
            }
        },
    }
}

pub open spec fn flatpak_check(args: Seq<Seq<char>>) -> Result<(), Seq<char>> {
    match verb_split("flatpak"@, args, flatpak_verbs(), flatpak_options()) {
        Err(e) => Err(e),
        Ok((verb, pos)) => {
            if pos.len() == 0 && verb != "update"@ {
                Err("flatpak "@ + verb + " needs at least one ref."@)
            } else {
                names_check(pos, flatpak_ref_marks())
            }
        },
    }
}

pub open spec fn chwd_check(args: Seq<Seq<char>>) -> Result<(), Seq<char>> {
    if args.len() == 2 && (args[0] == "-i"@ || args[0] == "-r"@) {
        name_check(args[1], name_marks())
    } else {
        Err("chwd takes exactly -i or -r and one profile name."@)
    }
}

pub open spec fn one_file_check(
    program: Seq<char>,
    flag: Seq<char>,
    ext: Seq<char>,
    args: Seq<Seq<char>>,
    dirs: Seq<Seq<char>>,
) -> Result<(), Seq<char>> {
    if args.len() == 2 && args[0] == flag {
        file_check(args[1], ext, dirs)
    } else {
        Err(program + " takes exactly "@ + flag + " and one "@ + ext + " file."@)
    }
}

/// Why a command may not run as root, or `Ok`.
pub open spec fn command_check(program: Seq<char>, args: Seq<Seq<char>>, dirs: Seq<Seq<char>>) -> Result<
    (),
    Seq<char>,
> {
    if exists|i: int| 0 <= i < args.len() && has_control(#[trigger] args[i]) {
        Err("An argument contains a control character."@)
    } else if program == "pacman"@ {
        pacman_check(args, dirs)
    } else if program == "apt-get"@ {
        apt_check(args, dirs)
    } else if program == "dnf"@ {
        dnf_check(args)
    } else if program == "snap"@ {
        snap_check(args)
    } else if program == "flatpak"@ {
        flatpak_check(args)
    } else if program == "chwd"@ {
        chwd_check(args)
    } else if program == "rpm"@ {
        one_file_check("rpm"@, "-U"@, ".rpm"@, args, dirs)
    } else if program == "dpkg"@ {
        one_file_check("dpkg"@, "-i"@, ".deb"@, args, dirs)
    } else {
        Err("Only "@ + list_text(allowed_programs())
            + " may be run by the helper, by name and not by path."@)
    }
}

/// The first environment variable that may not pass, as its sentence.
pub open spec fn env_check(env: Seq<(Seq<char>, Seq<char>)>) -> Result<(), Seq<char>>
    decreases env.len(),
{
    if env.len() == 0 {
        Ok(())
    } else {
        let (key, value) = env[0];
        if !allowed_env().contains(key) {
            Err("The environment variable "@ + key + " is not passed to the helper. Only "@ + join(
                allowed_env(),
                ", "@,
            ) + " are."@)
        } else if has_control(value) {
            Err("The value of "@ + key + " contains a control character."@)
        } else {
            env_check(env.drop_first())
        }
    }
}

pub open spec fn env_view(env: Seq<(String, String)>) -> Seq<(Seq<char>, Seq<char>)> {
    env.map_values(|p: (String, String)| (p.0@, p.1@))
}

/// Why one step may not run as root, or `Ok`: the sentence has no step in
/// it; `refusal` adds that.
pub open spec fn step_check(step: Step, dirs: Seq<Seq<char>>) -> Result<(), Seq<char>> {
    if !step.needs_root {
        Err("The helper only runs steps marked as needing root."@)
    } else if step.command.cwd is Some {
        Err("Steps run by the helper must not set a working directory."@)
    } else {
        match env_check(env_view(step.command.env@)) {
            Err(e) => Err(e),
            Ok(()) => command_check(
                step.command.program@,
                strings_view(step.command.args@),
                dirs,
            ),
        }
    }
}

/// A command as a sentence shows it: the program and every argument,
/// separated by spaces.
pub open spec fn describe(program: Seq<char>, args: Seq<Seq<char>>) -> Seq<char>
    decreases args.len(),
{
    if args.len() == 0 {
        program
    } else {
        describe(program, args.drop_last()) + " "@ + args.last()
    }
}

pub open spec fn refusal_text(program: Seq<char>, args: Seq<Seq<char>>, reason: Seq<char>) -> Seq<
    char,
> {
    "The helper refused a step it does not allow: "@ + describe(program, args) + ". "@ + reason
}

/// The outcome of checking every step in order: the first refusal, or `Ok`.
pub open spec fn plan_check(steps: Seq<Step>, dirs: Seq<Seq<char>>) -> Result<(), Seq<char>>
    decreases steps.len(),
{
    if steps.len() == 0 {
        Ok(())
    } else {
        match step_check(steps[0], dirs) {
            Err(reason) => Err(
                refusal_text(
                    steps[0].command.program@,
                    strings_view(steps[0].command.args@),
                    reason,
                ),
            ),
            Ok(()) => plan_check(steps.drop_first(), dirs),
        }
    }
}

/// Step `i` is the first refused step of `steps`, and the plan's sentence
/// is its refusal.
pub open spec fn refused_first_at(steps: Seq<Step>, dirs: Seq<Seq<char>>, i: int) -> bool {
    &&& 0 <= i < steps.len()
    &&& forall|j: int| 0 <= j < i ==> step_check(#[trigger] steps[j], dirs) is Ok
    &&& match step_check(steps[i], dirs) {
        Err(reason) => plan_check(steps, dirs) == Err::<(), Seq<char>>(
            refusal_text(steps[i].command.program@, strings_view(steps[i].command.args@), reason),
        ),
        Ok(()) => false,
    }
}

/// A plan passes exactly when every one of its steps passes; one refused
/// step refuses the whole plan, and the sentence names the first such step
/// with its reason.
pub proof fn lemma_plan_refused_whole(steps: Seq<Step>, dirs: Seq<Seq<char>>)
    ensures
        plan_check(steps, dirs) is Ok <==> forall|i: int|
            0 <= i < steps.len() ==> step_check(#[trigger] steps[i], dirs) is Ok,
        plan_check(steps, dirs) is Err ==> exists|i: int| refused_first_at(steps, dirs, i),
    decreases steps.len(),
{
    if steps.len() > 0 {
        let rest = steps.drop_first();
        lemma_plan_refused_whole(rest, dirs);
        assert forall|i: int| 1 <= i < steps.len() implies steps[i] == rest[i - 1] by {}
        if step_check(steps[0], dirs) is Ok {
            assert(plan_check(steps, dirs) == plan_check(rest, dirs));
            if plan_check(steps, dirs) is Err {
                let k = choose|k: int| refused_first_at(rest, dirs, k);
                assert(steps[k + 1] == rest[k]);
                assert forall|j: int| 0 <= j < k + 1 implies step_check(
                    #[trigger] steps[j],
                    dirs,
                ) is Ok by {
                    if j > 0 {
                        assert(steps[j] == rest[j - 1]);
                    }
                }
                assert(refused_first_at(steps, dirs, k + 1));
            } else {
                assert forall|i: int| 0 <= i < steps.len() implies step_check(
                    #[trigger] steps[i],
                    dirs,
                ) is Ok by {
                    if i > 0 {
                        assert(steps[i] == rest[i - 1]);
                    }
                }
            }
        } else {
            assert(refused_first_at(steps, dirs, 0));
        }
    }
}

// ---------------------------------------------------------------------------
// Checking programs
// ---------------------------------------------------------------------------

fn no_positionals(program: &str, verb: &[char], pos: &Vec<Vec<char>>) -> (r: Result<(), String>)
    ensures
        match r {
            Ok(()) => no_positionals_check(program@, verb@, text::views(pos@)) is Ok,
            Err(e) => no_positionals_check(program@, verb@, text::views(pos@)) == Err::<
                (),
                Seq<char>,
            >(e@),
        },
{
    if pos.len() == 0 {
        return Ok(());
    }
    let mut s = text::string_from(program);
    text::push_str(&mut s, " ");
    text::push_chars(&mut s, verb);
    text::push_str(&mut s, " takes no package names.");
    Err(s)
}

fn verb_options_positionals(
    program: &str,
    args: &Vec<Vec<char>>,
    verbs: &Vec<&str>,
    options: &Vec<&str>,
) -> (r: Result<(Vec<char>, Vec<Vec<char>>), String>)
    ensures
        match r {
            Ok((verb, rest)) => verb_split(
                program@,
                text::views(args@),
                strs_view(verbs@),
                strs_view(options@),
            ) == Ok::<(Seq<char>, Seq<Seq<char>>), Seq<char>>((verb@, text::views(rest@))),
            Err(e) => verb_split(program@, text::views(args@), strs_view(verbs@), strs_view(options@))
                == Err::<(Seq<char>, Seq<Seq<char>>), Seq<char>>(e@),
        },
{
    let (opts, pos) = split_args(args, 0);
    assert(text::views(args@).skip(0) =~= text::views(args@));
    if pos.len() == 0 || !member(pos[0].as_slice(), verbs) {
        let mut s = text::string_from(program);
        text::push_str(&mut s, " must be given one of ");
        push_list(&mut s, verbs);
        text::push_str(&mut s, ".");
        proof {
            if pos.len() > 0 {
                assert(text::views(pos@)[0] == pos@[0]@);
            }
        }
        return Err(s);
    }
    assert(text::views(pos@)[0] == pos@[0]@);
    match first_absent(&opts, options) {
        Some(i) => {
            let mut s = text::string_from("The option ");
            text::push_chars(&mut s, opts[i].as_slice());
            text::push_str(&mut s, " is not allowed for ");
            text::push_str(&mut s, program);
            text::push_str(&mut s, " ");
            text::push_chars(&mut s, pos[0].as_slice());
            text::push_str(&mut s, ".");
            Err(s)
        },
        None => {
            let verb = text::copy_chars(pos[0].as_slice());
            let mut rest: Vec<Vec<char>> = Vec::new();
            let mut j: usize = 1;
            while j < pos.len()
                invariant
                    1 <= j <= pos@.len(),
                    text::views(rest@) == text::views(pos@).subrange(1, j as int),
                decreases pos@.len() - j,
            {
                let item = text::copy_chars(pos[j].as_slice());
                assert(item@ == text::views(pos@)[j as int]);
                let ghost before = rest@;
                rest.push(item);
                assert(text::views(rest@) =~= text::views(before).push(item@));
                assert(text::views(rest@) =~= text::views(pos@).subrange(1, j + 1));
                j = j + 1;
            }
            assert(text::views(rest@) =~= text::views(pos@).drop_first());
            Ok((verb, rest))
        },
    }
}

fn eq_word(a: &[char], w: &str) -> (r: bool)
    ensures
        r == (a@ == w@),
{
    text::eq_str(a, w)
}

fn pacman(args: &Vec<Vec<char>>, allowed: &Allowed) -> (r: Result<(), String>)
    ensures
        match r {
            Ok(()) => pacman_check(text::views(args@), strings_view(allowed.package_dirs@)) is Ok,
            Err(e) => pacman_check(text::views(args@), strings_view(allowed.package_dirs@)) == Err::<
                (),
                Seq<char>,
            >(e@),
        },
{
    let ghost a = text::views(args@);
    let verbs = pacman_verb_words();
    if args.len() == 0 || !member(args[0].as_slice(), &verbs) {
        let mut s = text::string_from("pacman must be given one of ");
        push_list(&mut s, &verbs);
        text::push_str(&mut s, " as its first argument.");
        proof {
            if args.len() > 0 {
                assert(a[0] == args@[0]@);
            }
        }
        return Err(s);
    }
    assert(a[0] == args@[0]@);
    let verb = &args[0];
    let (opts, pos) = split_args(args, 1);
    assert(a.skip(1) =~= a.drop_first());
    let options = pacman_option_words();
    match first_absent(&opts, &options) {
        Some(i) => {
            let mut s = text::string_from("The option ");
            text::push_chars(&mut s, opts[i].as_slice());
            text::push_str(&mut s, " is not allowed for pacman ");
            text::push_chars(&mut s, verb.as_slice());
            text::push_str(&mut s, ".");
            return Err(s);
        },
        None => {},
    }
    if eq_word(verb.as_slice(), "-U") {
        if pos.len() == 0 {
            return Err(text::string_from("pacman -U needs at least one package file."));
        }
        return check_files(&pos, ".pkg.tar", allowed);
    }
    if pos.len() == 0 && (eq_word(verb.as_slice(), "-S") || eq_word(verb.as_slice(), "-Rs")) {
        let mut s = text::string_from("pacman ");
        text::push_chars(&mut s, verb.as_slice());
        text::push_str(&mut s, " needs at least one package name.");
        return Err(s);
    }
    check_names(&pos, "@._+-")
}

fn apt_items(items: &Vec<Vec<char>>, allowed: &Allowed) -> (r: Result<(), String>)
    ensures
        match r {
            Ok(()) => apt_items_check(text::views(items@), strings_view(allowed.package_dirs@)) is Ok,
            Err(e) => apt_items_check(text::views(items@), strings_view(allowed.package_dirs@))
                == Err::<(), Seq<char>>(e@),
        },
{
    let ghost v = text::views(items@);
    let ghost dirs = strings_view(allowed.package_dirs@);
    let mut i: usize = 0;
    assert(v.skip(0) =~= v);
    while i < items.len()
        invariant
            v == text::views(items@),
            dirs == strings_view(allowed.package_dirs@),
            i <= items@.len(),
            apt_items_check(v, dirs) == apt_items_check(v.skip(i as int), dirs),
        decreases items@.len() - i,
    {
        let item = &items[i];
        assert(v.skip(i as int)[0] == item@);
        let first = if item.len() > 0 && item[0] == '/' {
            check_file(item.as_slice(), ".deb", allowed)
        } else {
            check_name(item.as_slice(), "@._+-:=~")
        };
        match first {
            Err(e) => {
                return Err(e);
            },
            Ok(()) => {},
        }
        assert(v.skip(i as int).drop_first() =~= v.skip(i + 1));
        i = i + 1;
    }
    Ok(())
}

fn apt_get(args: &Vec<Vec<char>>, allowed: &Allowed) -> (r: Result<(), String>)
    ensures
        match r {
            Ok(()) => apt_check(text::views(args@), strings_view(allowed.package_dirs@)) is Ok,
            Err(e) => apt_check(text::views(args@), strings_view(allowed.package_dirs@)) == Err::<
                (),
                Seq<char>,
            >(e@),
        },
{
    let verbs = apt_verb_words();
    let options = apt_option_words();
    let (verb, pos) = match verb_options_positionals("apt-get", args, &verbs, &options) {
        Ok(found) => found,
        Err(e) => return Err(e),
    };
    if eq_word(verb.as_slice(), "install") {
        if pos.len() == 0 {
            return Err(
                text::string_from("apt-get install needs at least one package name or .deb file."),
            );
        }
        return apt_items(&pos, allowed);
    }
    if eq_word(verb.as_slice(), "remove") {
        if pos.len() == 0 {
            return Err(text::string_from("apt-get remove needs at least one package name."));
        }
        return check_names(&pos, "@._+-:=~");
    }
    no_positionals("apt-get", verb.as_slice(), &pos)
}

fn dnf(args: &Vec<Vec<char>>) -> (r: Result<(), String>)
    ensures
        match r {
            Ok(()) => dnf_check(text::views(args@)) is Ok,
            Err(e) => dnf_check(text::views(args@)) == Err::<(), Seq<char>>(e@),
        },
{
    let verbs = dnf_verb_words();
    let options = dnf_option_words();
    let (verb, pos) = match verb_options_positionals("dnf", args, &verbs, &options) {
        Ok(found) => found,
        Err(e) => return Err(e),
    };
    if (eq_word(verb.as_slice(), "install") || eq_word(verb.as_slice(), "remove")) && pos.len()
        == 0 {
        let mut s = text::string_from("dnf ");
        text::push_chars(&mut s, verb.as_slice());
        text::push_str(&mut s, " needs at least one package name.");
        return Err(s);
    }
    if eq_word(verb.as_slice(), "makecache") {
        return no_positionals("dnf", verb.as_slice(), &pos);
    }
    check_names(&pos, "@._+-:")
}

fn snap(args: &Vec<Vec<char>>) -> (r: Result<(), String>)
    ensures
        match r {
            Ok(()) => snap_check(text::views(args@)) is Ok,
            Err(e) => snap_check(text::views(args@)) == Err::<(), Seq<char>>(e@),
        },
{
    let verbs = snap_verb_words();
    let options = snap_option_words();
    let (verb, pos) = match verb_options_positionals("snap", args, &verbs, &options) {
        Ok(found) => found,
        Err(e) => return Err(e),
    };
    if pos.len() == 0 && !eq_word(verb.as_slice(), "refresh") {
        let mut s = text::string_from("snap ");
        text::push_chars(&mut s, verb.as_slice());
        text::push_str(&mut s, " needs at least one snap name.");
        return Err(s);
    }
    check_names(&pos, "@._+-")
}

fn flatpak(args: &Vec<Vec<char>>) -> (r: Result<(), String>)
    ensures
        match r {
            Ok(()) => flatpak_check(text::views(args@)) is Ok,
            Err(e) => flatpak_check(text::views(args@)) == Err::<(), Seq<char>>(e@),
        },
{
    let verbs = flatpak_verb_words();
    let options = flatpak_option_words();
    let (verb, pos) = match verb_options_positionals("flatpak", args, &verbs, &options) {
        Ok(found) => found,
        Err(e) => return Err(e),
    };
    if pos.len() == 0 && !eq_word(verb.as_slice(), "update") {
        let mut s = text::string_from("flatpak ");
        text::push_chars(&mut s, verb.as_slice());
        text::push_str(&mut s, " needs at least one ref.");
        return Err(s);
    }
    check_names(&pos, "./_-")
}

fn chwd(args: &Vec<Vec<char>>) -> (r: Result<(), String>)
    ensures
        match r {
            Ok(()) => chwd_check(text::views(args@)) is Ok,
            Err(e) => chwd_check(text::views(args@)) == Err::<(), Seq<char>>(e@),
        },
{
    let ghost a = text::views(args@);
    if args.len() == 2 {
        assert(a[0] == args@[0]@ && a[1] == args@[1]@);
        if eq_word(args[0].as_slice(), "-i") || eq_word(args[0].as_slice(), "-r") {
            return check_name(args[1].as_slice(), "@._+-");
        }
    }
    Err(text::string_from("chwd takes exactly -i or -r and one profile name."))
}

fn one_file(program: &str, flag: &str, ext: &str, args: &Vec<Vec<char>>, allowed: &Allowed) -> (r:
    Result<(), String>)
    ensures
        match r {
            Ok(()) => one_file_check(
                program@,
                flag@,
                ext@,
                text::views(args@),
                strings_view(allowed.package_dirs@),
            ) is Ok,
            Err(e) => one_file_check(
                program@,
                flag@,
                ext@,
                text::views(args@),
                strings_view(allowed.package_dirs@),
            ) == Err::<(), Seq<char>>(e@),
        },
{
    let ghost a = text::views(args@);
    if args.len() == 2 {
        assert(a[0] == args@[0]@ && a[1] == args@[1]@);
        if eq_word(args[0].as_slice(), flag) {
            return check_file(args[1].as_slice(), ext, allowed);
        }
    }
    let mut s = text::string_from(program);
    text::push_str(&mut s, " takes exactly ");
    text::push_str(&mut s, flag);
    text::push_str(&mut s, " and one ");
    text::push_str(&mut s, ext);
    text::push_str(&mut s, " file.");
    Err(s)
}

fn control_free(a: &[char]) -> (r: bool)
    ensures
        r == !has_control(a@),
{
    !text::has_char(a, '\0') && !text::has_char(a, '\n')
}

fn check_command(command: &Command, allowed: &Allowed) -> (r: Result<(), String>)
    ensures
        match r {
            Ok(()) => command_check(
                command.program@,
                strings_view(command.args@),
                strings_view(allowed.package_dirs@),
            ) is Ok,
            Err(e) => command_check(
                command.program@,
                strings_view(command.args@),
                strings_view(allowed.package_dirs@),
            ) == Err::<(), Seq<char>>(e@),
        },
{
    let args = strings_chars(&command.args);
    let ghost a = text::views(args@);
    let mut i: usize = 0;
    while i < args.len()
        invariant
            a == text::views(args@),
            a == strings_view(command.args@),
            a.len() == args@.len(),
            i <= args@.len(),
            forall|j: int| 0 <= j < i ==> !has_control(#[trigger] a[j]),
        decreases args@.len() - i,
    {
        assert(a[i as int] == args@[i as int]@);
        if !control_free(args[i].as_slice()) {
            assert(has_control(strings_view(command.args@)[i as int]));
            return Err(text::string_from("An argument contains a control character."));
        }
        i = i + 1;
    }
    let program = text::chars(command.program.as_str());
    if eq_word(program.as_slice(), "pacman") {
        pacman(&args, allowed)
    } else if eq_word(program.as_slice(), "apt-get") {
        apt_get(&args, allowed)
    } else if eq_word(program.as_slice(), "dnf") {
        dnf(&args)
    } else if eq_word(program.as_slice(), "snap") {
        snap(&args)
    } else if eq_word(program.as_slice(), "flatpak") {
        flatpak(&args)
    } else if eq_word(program.as_slice(), "chwd") {
        chwd(&args)
    } else if eq_word(program.as_slice(), "rpm") {
        one_file("rpm", "-U", ".rpm", &args, allowed)
    } else if eq_word(program.as_slice(), "dpkg") {
        one_file("dpkg", "-i", ".deb", &args, allowed)
    } else {
        let programs = program_words();
        let mut s = text::string_from("Only ");
        push_list(&mut s, &programs);
        text::push_str(&mut s, " may be run by the helper, by name and not by path.");
        Err(s)
    }
}

fn check_env(env: &Vec<(String, String)>) -> (r: Result<(), String>)
    ensures
        match r {
            Ok(()) => env_check(env_view(env@)) is Ok,
            Err(e) => env_check(env_view(env@)) == Err::<(), Seq<char>>(e@),
        },
{
    let ghost v = env_view(env@);
    let names = env_words();
    let mut i: usize = 0;
    assert(v.skip(0) =~= v);
    while i < env.len()
        invariant
            v == env_view(env@),
            strs_view(names@) == allowed_env(),
            i <= env@.len(),
            env_check(v) == env_check(v.skip(i as int)),
        decreases env@.len() - i,
    {
        let key = text::chars(env[i].0.as_str());
        let value = text::chars(env[i].1.as_str());
        assert(v.skip(i as int)[0] == (key@, value@));
        if !member(key.as_slice(), &names) {
            let mut s = text::string_from("The environment variable ");
            text::push_chars(&mut s, key.as_slice());
            text::push_str(&mut s, " is not passed to the helper. Only ");
            push_join(&mut s, &names, names.len(), ", ");
            text::push_str(&mut s, " are.");
            assert(strs_view(names@).take(names@.len() as int) =~= strs_view(names@));
            return Err(s);
        }
        if !control_free(value.as_slice()) {
            let mut s = text::string_from("The value of ");
            text::push_chars(&mut s, key.as_slice());
            text::push_str(&mut s, " contains a control character.");
            return Err(s);
        }
        assert(v.skip(i as int).drop_first() =~= v.skip(i + 1));
        i = i + 1;
    }
    Ok(())
}

/// Why one step may not run, or `Ok(())`.
pub fn check_step(step: &Step, allowed: &Allowed) -> (r: Result<(), String>)
    ensures
        match r {
            Ok(()) => step_check(*step, strings_view(allowed.package_dirs@)) is Ok,
            Err(e) => step_check(*step, strings_view(allowed.package_dirs@)) == Err::<
                (),
                Seq<char>,
            >(e@),
        },
{
    if !step.needs_root {
        return Err(text::string_from("The helper only runs steps marked as needing root."));
    }
    if step.command.cwd.is_some() {
        return Err(
            text::string_from("Steps run by the helper must not set a working directory."),
        );
    }
    match check_env(&step.command.env) {
        Err(e) => {
            return Err(e);
        },
        Ok(()) => {},
    }
    check_command(&step.command, allowed)
}

fn push_describe(s: &mut String, command: &Command)
    ensures
        final(s)@ == old(s)@ + describe(command.program@, strings_view(command.args@)),
{
    let ghost a = strings_view(command.args@);
    let ghost start = s@;
    text::push_str(s, command.program.as_str());
    let mut i: usize = 0;
    while i < command.args.len()
        invariant
            a == strings_view(command.args@),
            i <= command.args@.len(),
            s@ == start + describe(command.program@, a.take(i as int)),
        decreases command.args@.len() - i,
    {
        text::push_char(s, ' ');
        text::push_str(s, command.args[i].as_str());
        proof {
            let t = a.take(i + 1);
            assert(t.drop_last() =~= a.take(i as int));
            assert(t.last() == command.args@[i as int]@);
            reveal_strlit(" ");
        }
        assert(s@ =~= start + describe(command.program@, a.take(i + 1)));
        i = i + 1;
    }
    assert(a.take(a.len() as int) =~= a);
}

/// The sentence for a refused step: the step, then the reason.
pub fn refusal(command: &Command, reason: &str) -> (r: String)
    ensures
        r@ == refusal_text(command.program@, strings_view(command.args@), reason@),
{
    let mut s = text::string_from("The helper refused a step it does not allow: ");
    push_describe(&mut s, command);
    text::push_str(&mut s, ". ");
    text::push_str(&mut s, reason);
    s
}

/// Check a plan against the closed list with a caller-chosen list of
/// package directories. A plan with one bad step is refused whole, and the
/// sentence names the first such step.
pub fn validate_with(plan: &Plan, allowed: &Allowed) -> (r: Result<(), String>)
    ensures
        match r {
            Ok(()) => plan_check(plan.steps@, strings_view(allowed.package_dirs@)) is Ok,
            Err(e) => plan_check(plan.steps@, strings_view(allowed.package_dirs@)) == Err::<
                (),
                Seq<char>,
            >(e@),
        },
{
    let ghost dirs = strings_view(allowed.package_dirs@);
    let mut i: usize = 0;
    assert(plan.steps@.skip(0) =~= plan.steps@);
    while i < plan.steps.len()
        invariant
            dirs == strings_view(allowed.package_dirs@),
            i <= plan.steps@.len(),
            plan_check(plan.steps@, dirs) == plan_check(plan.steps@.skip(i as int), dirs),
        decreases plan.steps@.len() - i,
    {
        let step = &plan.steps[i];
        assert(plan.steps@.skip(i as int)[0] == *step);
        match check_step(step, allowed) {
            Err(reason) => {
                return Err(refusal(&step.command, reason.as_str()));
            },
            Ok(()) => {},
        }
        assert(plan.steps@.skip(i as int).drop_first() =~= plan.steps@.skip(i + 1));
        i = i + 1;
    }
    Ok(())
}

/// Check a plan against the closed list with the system package caches
/// only.
pub fn validate(plan: &Plan) -> (r: Result<(), String>)
    ensures
        match r {
            Ok(()) => plan_check(plan.steps@, system_package_dirs()) is Ok,
            Err(e) => plan_check(plan.steps@, system_package_dirs()) == Err::<(), Seq<char>>(e@),
        },
{
    validate_with(plan, &Allowed::system())
}

} // verus!
