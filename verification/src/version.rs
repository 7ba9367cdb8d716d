//! Release versions, and the tags that carry them.
//!
//! A version is three numbers and an optional pre-release. The numbers are
//! compared as numbers, never as text: `0.0.10` is newer than `0.0.9`. A
//! pre-release sorts below the release it leads to.

use vstd::prelude::*;
use vstd::std_specs::cmp::PartialOrdSpecImpl;
use core::cmp::Ordering;
use crate::text;

verus! {

/// A `major.minor.patch` version with an optional pre-release suffix.
#[derive(Clone, Debug, PartialEq, Eq, Hash)]
pub struct Version {
    pub major: u64,
    pub minor: u64,
    pub patch: u64,
    /// The identifiers after the hyphen, `rc.1` in `0.2.0-rc.1`; `None` is a
    /// release proper.
    pub pre: Option<String>,
}

/// What a version is, as mathematics.
pub struct VersionView {
    pub major: nat,
    pub minor: nat,
    pub patch: nat,
    pub pre: Option<Seq<char>>,
}

pub open spec fn pre_view(p: Option<String>) -> Option<Seq<char>> {
    match p {
        Some(s) => Some(s@),
        None => None,
    }
}

impl View for Version {
    type V = VersionView;

    open spec fn view(&self) -> VersionView {
        VersionView {
            major: self.major as nat,
            minor: self.minor as nat,
            patch: self.patch as nat,
            pre: pre_view(self.pre),
        }
    }
}

// ---------------------------------------------------------------------------
// Reading a version
// ---------------------------------------------------------------------------

/// One numeric part: one or more ASCII digits whose value fits in a `u64`.
/// A sign is not a digit, so `+2` is refused.
pub open spec fn number_spec(part: Seq<char>) -> Option<nat> {
    if part.len() > 0 && text::all_digits(part) && text::digits_value(part) <= u64::MAX {
        Some(text::digits_value(part))
    } else {
        None
    }
}

pub open spec fn is_ident_char(c: char) -> bool {
    text::is_alnum(c) || c == '-'
}

/// One pre-release identifier: non-empty, ASCII letters, digits and hyphens.
pub open spec fn ident_ok(id: Seq<char>) -> bool {
    id.len() > 0 && forall|i: int| 0 <= i < id.len() ==> is_ident_char(#[trigger] id[i])
}

/// A pre-release: dot-separated identifiers, none of them empty.
pub open spec fn pre_ok(p: Seq<char>) -> bool {
    let ids = text::split(p, '.');
    forall|k: int| 0 <= k < ids.len() ==> ident_ok(#[trigger] ids[k])
}

pub open spec fn strip_v(t: Seq<char>) -> Seq<char> {
    if t.len() > 0 && t[0] == 'v' {
        t.drop_first()
    } else {
        t
    }
}

/// The core and the pre-release of a tag, split at the first hyphen.
pub open spec fn core_and_pre(t: Seq<char>) -> (Seq<char>, Option<Seq<char>>) {
    match text::split_once(t, '-') {
        Some((core, pre)) => (core, Some(pre)),
        None => (t, None),
    }
}

/// What `Version::parse` reads `text` as: surrounding white space and one
/// leading `v` are dropped; build metadata (`+`) is refused; exactly three
/// numeric parts; an optional well-formed pre-release.
pub open spec fn parse_spec(text: Seq<char>) -> Option<VersionView> {
    let t = strip_v(text::trim(text));
    if t.contains('+') {
        None
    } else {
        let (core, pre) = core_and_pre(t);
        let parts = text::split(core, '.');
        if parts.len() != 3 {
            None
        } else {
            match (number_spec(parts[0]), number_spec(parts[1]), number_spec(parts[2])) {
                (Some(major), Some(minor), Some(patch)) => {
                    match pre {
                        Some(p) => {
                            if pre_ok(p) {
                                Some(VersionView { major, minor, patch, pre: Some(p) })
                            } else {
                                None
                            }
                        },
                        None => Some(VersionView { major, minor, patch, pre: None }),
                    }
                },
                _ => None,
            }
        }
    }
}

/// The version text this crate is released as.
pub open spec fn own_version_text() -> Seq<char> {
    seq!['0', '.', '1', '.', '0']
}

// ---------------------------------------------------------------------------
// Writing a version
// ---------------------------------------------------------------------------

pub open spec fn display(v: VersionView) -> Seq<char> {
    let core = text::decimal(v.major) + seq!['.'] + text::decimal(v.minor) + seq!['.']
        + text::decimal(v.patch);
    match v.pre {
        Some(p) => core + seq!['-'] + p,
        None => core,
    }
}

// ---------------------------------------------------------------------------
// Ordering
// ---------------------------------------------------------------------------

/// Three-way comparison as -1, 0 or 1.
pub open spec fn order_of_nat(a: nat, b: nat) -> int {
    if a < b {
        -1
    } else if a == b {
        0
    } else {
        1
    }
}

/// Characters compared one by one by scalar value; a proper prefix is the
/// smaller. For UTF-8 this is the byte order `str` compares by.
pub open spec fn lex_order(x: Seq<char>, y: Seq<char>) -> int
    decreases x.len(),
{
    if x.len() == 0 {
        if y.len() == 0 {
            0
        } else {
            -1
        }
    } else if y.len() == 0 {
        1
    } else if (x[0] as u32) < (y[0] as u32) {
        -1
    } else if (x[0] as u32) > (y[0] as u32) {
        1
    } else {
        lex_order(x.drop_first(), y.drop_first())
    }
}

/// One pre-release identifier against another: numbers as numbers and below
/// words, words as text.
pub open spec fn ident_order(x: Seq<char>, y: Seq<char>) -> int {
    match (number_spec(x), number_spec(y)) {
        (Some(m), Some(n)) => order_of_nat(m, n),
        (Some(_), None) => -1,
        (None, Some(_)) => 1,
        (None, None) => lex_order(x, y),
    }
}

/// Identifier by identifier; a longer list of otherwise equal identifiers is
/// the higher.
pub open spec fn idents_order(a: Seq<Seq<char>>, b: Seq<Seq<char>>) -> int
    decreases a.len(),
{
    if a.len() == 0 {
        if b.len() == 0 {
            0
        } else {
            -1
        }
    } else if b.len() == 0 {
        1
    } else if ident_order(a[0], b[0]) != 0 {
        ident_order(a[0], b[0])
    } else {
        idents_order(a.drop_first(), b.drop_first())
    }
}

pub open spec fn pre_order(a: Seq<char>, b: Seq<char>) -> int {
    idents_order(text::split(a, '.'), text::split(b, '.'))
}

/// Precedence of two versions: the numbers first; for equal numbers a
/// release outranks every pre-release, and pre-releases go by `pre_order`.
pub open spec fn version_order(a: VersionView, b: VersionView) -> int {
    if a.major != b.major {
        order_of_nat(a.major, b.major)
    } else if a.minor != b.minor {
        order_of_nat(a.minor, b.minor)
    } else if a.patch != b.patch {
        order_of_nat(a.patch, b.patch)
    } else {
        match (a.pre, b.pre) {
            (None, None) => 0,
            (None, Some(_)) => 1,
            (Some(_), None) => -1,
            (Some(x), Some(y)) => pre_order(x, y),
        }
    }
}

pub open spec fn ordering_of(c: int) -> Ordering {
    if c < 0 {
        Ordering::Less
    } else if c == 0 {
        Ordering::Equal
    } else {
        Ordering::Greater
    }
}

// ---------------------------------------------------------------------------
// Laws
// ---------------------------------------------------------------------------

/// Every character of a well-formed pre-release is an identifier character
/// or a dot.
proof fn lemma_pre_chars(p: Seq<char>)
    requires
        pre_ok(p),
    ensures
        forall|i: int| 0 <= i < p.len() ==> is_ident_char(#[trigger] p[i]) || p[i] == '.',
    decreases p.len(),
{
    text::lemma_find(p, '.');
    match text::find(p, '.') {
        Some(i) => {
            let head = p.take(i);
            let rest = p.skip(i + 1);
            assert(text::split(p, '.') == seq![head] + text::split(rest, '.'));
            assert(ident_ok(text::split(p, '.')[0]));
            assert forall|k: int| 0 <= k < text::split(rest, '.').len() implies ident_ok(
                #[trigger] text::split(rest, '.')[k],
            ) by {
                assert(text::split(p, '.')[k + 1] == text::split(rest, '.')[k]);
            }
            lemma_pre_chars(rest);
            assert forall|j: int| 0 <= j < p.len() implies is_ident_char(#[trigger] p[j]) || p[j]
                == '.' by {
                if j < i {
                    assert(p[j] == head[j]);
                } else if j > i {
                    assert(p[j] == rest[j - i - 1]);
                }
            }
        },
        None => {
            text::lemma_split_absent(p, '.');
            assert(ident_ok(text::split(p, '.')[0]));
        },
    }
}

/// A version's text reads back as that version: `to_string` and `parse`
/// undo each other for every version whose pre-release is well formed.
pub proof fn lemma_display_parses_back(v: Version)
    requires
        match v.pre {
            Some(p) => pre_ok(p@),
            None => true,
        },
    ensures
        parse_spec(display(v@)) == Some(v@),
{
    let w = v@;
    text::lemma_decimal_reads_back(w.major);
    text::lemma_decimal_reads_back(w.minor);
    text::lemma_decimal_reads_back(w.patch);
    let d1 = text::decimal(w.major);
    let d2 = text::decimal(w.minor);
    let d3 = text::decimal(w.patch);
    let tail = d2 + seq!['.'] + d3;
    let core = d1 + seq!['.'] + tail;
    assert(core =~= d1 + seq!['.'] + d2 + seq!['.'] + d3);
    let s = display(w);
    // Which characters occur.
    assert(!d1.contains('.') && !d2.contains('.') && !d3.contains('.')) by {
        assert forall|i: int| 0 <= i < d1.len() implies d1[i] != '.' by {
            assert(text::is_digit(d1[i]));
        }
        assert forall|i: int| 0 <= i < d2.len() implies d2[i] != '.' by {
            assert(text::is_digit(d2[i]));
        }
        assert forall|i: int| 0 <= i < d3.len() implies d3[i] != '.' by {
            assert(text::is_digit(d3[i]));
        }
    }
    assert forall|i: int| 0 <= i < core.len() implies text::is_digit(#[trigger] core[i])
        || core[i] == '.' by {
        if i < d1.len() {
            assert(core[i] == d1[i]);
        } else if i > d1.len() && i < d1.len() + 1 + d2.len() {
            assert(core[i] == d2[i - d1.len() - 1]);
        } else if i > d1.len() + 1 + d2.len() {
            assert(core[i] == d3[i - d1.len() - 2 - d2.len()]);
        }
    }
    assert(!core.contains('-')) by {
        assert forall|i: int| 0 <= i < core.len() implies core[i] != '-' by {
            assert(text::is_digit(core[i]) || core[i] == '.');
        }
    }
    match w.pre {
        Some(p) => {
            lemma_pre_chars(p);
            assert(s =~= core + seq!['-'] + p);
            assert forall|i: int| 0 <= i < s.len() implies !text::is_space(#[trigger] s[i])
                && s[i] != '+' by {
                if i < core.len() {
                    assert(s[i] == core[i]);
                    assert(text::is_digit(core[i]) || core[i] == '.');
                } else if i > core.len() {
                    assert(s[i] == p[i - core.len() - 1]);
                    assert(is_ident_char(p[i - core.len() - 1]) || p[i - core.len() - 1] == '.');
                }
            }
            text::lemma_split_first(core, '-', p);
            assert(text::split_once(s, '-') == Some((core, p))) by {
                assert(s.take(core.len() as int) =~= core);
                assert(s.skip(core.len() as int + 1) =~= p);
            }
        },
        None => {
            assert(s =~= core);
            assert forall|i: int| 0 <= i < s.len() implies !text::is_space(#[trigger] s[i])
                && s[i] != '+' by {
                assert(text::is_digit(core[i]) || core[i] == '.');
            }
            assert forall|j: int| 0 <= j < s.len() implies s[j] != '-' by {
                assert(text::is_digit(core[j]) || core[j] == '.');
            }
            text::lemma_absent_is_find(s, '-');
        },
    }
    text::lemma_trim_no_space(s);
    assert(s[0] == d1[0]);
    assert(strip_v(text::trim(s)) == s);
    assert(!s.contains('+'));
    assert(core_and_pre(s) == (core, w.pre));
    text::lemma_split_first(d1, '.', tail);
    text::lemma_split_first(d2, '.', d3);
    text::lemma_split_absent(d3, '.');
    assert(text::split(core, '.') =~= seq![d1, d2, d3]);
}

pub proof fn lemma_lex_antisymmetric(x: Seq<char>, y: Seq<char>)
    ensures
        lex_order(x, y) == -lex_order(y, x),
    decreases x.len(),
{
    if x.len() > 0 && y.len() > 0 && (x[0] as u32) == (y[0] as u32) {
        lemma_lex_antisymmetric(x.drop_first(), y.drop_first());
    }
}

pub proof fn lemma_lex_transitive(x: Seq<char>, y: Seq<char>, z: Seq<char>)
    requires
        lex_order(x, y) <= 0,
        lex_order(y, z) <= 0,
    ensures
        lex_order(x, z) <= 0,
        lex_order(x, y) < 0 || lex_order(y, z) < 0 ==> lex_order(x, z) < 0,
    decreases x.len(),
{
    if x.len() > 0 && y.len() > 0 && z.len() > 0 && (x[0] as u32) == (y[0] as u32) && (y[0] as u32)
        == (z[0] as u32) {
        lemma_lex_transitive(x.drop_first(), y.drop_first(), z.drop_first());
    }
}

proof fn lemma_ident_antisymmetric(x: Seq<char>, y: Seq<char>)
    ensures
        ident_order(x, y) == -ident_order(y, x),
{
    lemma_lex_antisymmetric(x, y);
}

proof fn lemma_ident_transitive(x: Seq<char>, y: Seq<char>, z: Seq<char>)
    requires
        ident_order(x, y) <= 0,
        ident_order(y, z) <= 0,
    ensures
        ident_order(x, z) <= 0,
        ident_order(x, y) < 0 || ident_order(y, z) < 0 ==> ident_order(x, z) < 0,
{
    if number_spec(x) is None && number_spec(y) is None && number_spec(z) is None {
        lemma_lex_transitive(x, y, z);
    }
}

proof fn lemma_idents_antisymmetric(a: Seq<Seq<char>>, b: Seq<Seq<char>>)
    ensures
        idents_order(a, b) == -idents_order(b, a),
    decreases a.len(),
{
    if a.len() > 0 && b.len() > 0 {
        lemma_ident_antisymmetric(a[0], b[0]);
        lemma_idents_antisymmetric(a.drop_first(), b.drop_first());
    }
}

proof fn lemma_idents_transitive(a: Seq<Seq<char>>, b: Seq<Seq<char>>, c: Seq<Seq<char>>)
    requires
        idents_order(a, b) <= 0,
        idents_order(b, c) <= 0,
    ensures
        idents_order(a, c) <= 0,
        idents_order(a, b) < 0 || idents_order(b, c) < 0 ==> idents_order(a, c) < 0,
    decreases a.len(),
{
    if a.len() > 0 && b.len() > 0 && c.len() > 0 {
        lemma_ident_antisymmetric(a[0], b[0]);
        lemma_ident_antisymmetric(b[0], c[0]);
        lemma_ident_antisymmetric(a[0], c[0]);
        if ident_order(a[0], b[0]) <= 0 && ident_order(b[0], c[0]) <= 0 {
            lemma_ident_transitive(a[0], b[0], c[0]);
        }
        if ident_order(a[0], b[0]) == 0 && ident_order(b[0], c[0]) == 0 {
            lemma_idents_transitive(a.drop_first(), b.drop_first(), c.drop_first());
        }
    }
}

/// Precedence is antisymmetric: `a` against `b` is the opposite of `b`
/// against `a`.
pub proof fn lemma_precedence_antisymmetric(a: Version, b: Version)
    ensures
        version_order(a@, b@) == -version_order(b@, a@),
{
    match (a@.pre, b@.pre) {
        (Some(x), Some(y)) => {
            lemma_idents_antisymmetric(text::split(x, '.'), text::split(y, '.'));
        },
        _ => {},
    }
}

/// Precedence is transitive, and strictly so where either step is strict.
pub proof fn lemma_precedence_transitive(a: Version, b: Version, c: Version)
    requires
        version_order(a@, b@) <= 0,
        version_order(b@, c@) <= 0,
    ensures
        version_order(a@, c@) <= 0,
        version_order(a@, b@) < 0 || version_order(b@, c@) < 0 ==> version_order(a@, c@) < 0,
{
    match (a@.pre, b@.pre, c@.pre) {
        (Some(x), Some(y), Some(z)) => {
            if a@.major == b@.major && b@.major == c@.major && a@.minor == b@.minor && b@.minor
                == c@.minor && a@.patch == b@.patch && b@.patch == c@.patch {
                lemma_idents_transitive(
                    text::split(x, '.'),
                    text::split(y, '.'),
                    text::split(z, '.'),
                );
            }
        },
        _ => {},
    }
}

/// A pre-release sorts below the release it leads to, whatever it says.
pub proof fn lemma_candidate_below_release(candidate: Version, release: Version)
    requires
        candidate.major == release.major,
        candidate.minor == release.minor,
        candidate.patch == release.patch,
        candidate.pre is Some,
        release.pre is None,
    ensures
        version_order(candidate@, release@) < 0,
{
}

// ---------------------------------------------------------------------------
// Executable code
// ---------------------------------------------------------------------------

/// One numeric part of a version.
fn number(part: &[char]) -> (r: Option<u64>)
    ensures
        match r {
            Some(n) => number_spec(part@) == Some(n as nat),
            None => number_spec(part@) is None,
        },
{
    if part.len() == 0 {
        return None;
    }
    let mut i: usize = 0;
    while i < part.len()
        invariant
            i <= part@.len(),
            forall|j: int| 0 <= j < i ==> text::is_digit(part@[j]),
        decreases part@.len() - i,
    {
        if !('0' <= part[i] && part[i] <= '9') {
            assert(!text::is_digit(part@[i as int]));
            return None;
        }
        i = i + 1;
    }
    assert(part@[0] != '+');
    assert(text::unsigned_body(part@) == part@);
    text::parse_unsigned_chars(part, u64::MAX)
}

fn ident_well_formed(id: &[char]) -> (r: bool)
    ensures
        r == ident_ok(id@),
{
    if id.len() == 0 {
        return false;
    }
    let mut i: usize = 0;
    while i < id.len()
        invariant
            i <= id@.len(),
            forall|j: int| 0 <= j < i ==> is_ident_char(#[trigger] id@[j]),
        decreases id@.len() - i,
    {
        if !(text::alnum(id[i]) || id[i] == '-') {
            return false;
        }
        i = i + 1;
    }
    true
}

fn pre_well_formed(p: &[char]) -> (r: bool)
    ensures
        r == pre_ok(p@),
{
    let ids = text::split_char(p, '.');
    let ghost want = text::split(p@, '.');
    assert(text::views(ids@).len() == ids@.len());
    let mut k: usize = 0;
    while k < ids.len()
        invariant
            text::views(ids@) == want,
            want == text::split(p@, '.'),
            want.len() == ids@.len(),
            k <= ids@.len(),
            forall|j: int| 0 <= j < k ==> ident_ok(#[trigger] want[j]),
        decreases ids@.len() - k,
    {
        assert(want[k as int] == ids@[k as int]@);
        if !ident_well_formed(ids[k].as_slice()) {
            assert(!ident_ok(want[k as int]));
            return false;
        }
        k = k + 1;
    }
    true
}

pub(crate) fn lex_compare(x: &[char], y: &[char]) -> (r: i8)
    ensures
        r as int == lex_order(x@, y@),
{
    let mut i: usize = 0;
    assert(x@.skip(0) =~= x@);
    assert(y@.skip(0) =~= y@);
    while i < x.len() && i < y.len()
        invariant
            i <= x@.len(),
            i <= y@.len(),
            lex_order(x@, y@) == lex_order(x@.skip(i as int), y@.skip(i as int)),
        decreases x@.len() - i,
    {
        let a: u32 = x[i] as u32;
        let b: u32 = y[i] as u32;
        if a < b {
            return -1;
        }
        if a > b {
            return 1;
        }
        assert(x@.skip(i as int).drop_first() =~= x@.skip(i + 1));
        assert(y@.skip(i as int).drop_first() =~= y@.skip(i + 1));
        i = i + 1;
    }
    if i == x.len() {
        if i == y.len() {
            0
        } else {
            -1
        }
    } else {
        1
    }
}

fn ident_compare(x: &[char], y: &[char]) -> (r: i8)
    ensures
        r as int == ident_order(x@, y@),
{
    match (number(x), number(y)) {
        (Some(m), Some(n)) => {
            if m < n {
                -1
            } else if m == n {
                0
            } else {
                1
            }
        },
        (Some(_), None) => -1,
        (None, Some(_)) => 1,
        (None, None) => lex_compare(x, y),
    }
}

fn pre_compare(a: &[char], b: &[char]) -> (r: i8)
    ensures
        r as int == pre_order(a@, b@),
{
    let left = text::split_char(a, '.');
    let right = text::split_char(b, '.');
    let ghost l = text::views(left@);
    let ghost rr = text::views(right@);
    let mut i: usize = 0;
    assert(l.skip(0) =~= l);
    assert(rr.skip(0) =~= rr);
    while i < left.len() && i < right.len()
        invariant
            l == text::split(a@, '.'),
            rr == text::split(b@, '.'),
            l.len() == left@.len(),
            rr.len() == right@.len(),
            forall|j: int| 0 <= j < l.len() ==> l[j] == left@[j]@,
            forall|j: int| 0 <= j < rr.len() ==> rr[j] == right@[j]@,
            i <= left@.len(),
            i <= right@.len(),
            pre_order(a@, b@) == idents_order(l.skip(i as int), rr.skip(i as int)),
        decreases left@.len() - i,
    {
        let c = ident_compare(left[i].as_slice(), right[i].as_slice());
        assert(l.skip(i as int)[0] == l[i as int]);
        assert(rr.skip(i as int)[0] == rr[i as int]);
        if c != 0 {
            return c;
        }
        assert(l.skip(i as int).drop_first() =~= l.skip(i + 1));
        assert(rr.skip(i as int).drop_first() =~= rr.skip(i + 1));
        i = i + 1;
    }
    if i == left.len() {
        if i == right.len() {
            0
        } else {
            -1
        }
    } else {
        1
    }
}

fn nat_compare(a: u64, b: u64) -> (r: i8)
    ensures
        r as int == order_of_nat(a as nat, b as nat),
{
    if a < b {
        -1
    } else if a == b {
        0
    } else {
        1
    }
}

impl Version {
    /// The version this build was released as. The text is fixed and parses,
    /// but should it ever not, the answer is `0.0.0`, which is never offered
    /// an update, rather than a panic on start-up.
    pub fn current() -> (r: Version)
        ensures
            match parse_spec(own_version_text()) {
                Some(v) => r@ == v,
                None => r@ == (VersionView { major: 0, minor: 0, patch: 0, pre: None }),
            },
    {
        // The package version of Cargo.toml, written out: keep the two in
        // step when the version changes.
        let own = "0.1.0";
        proof {
            reveal_strlit("0.1.0");
        }
        assert(own@ =~= own_version_text());
        match Version::parse(own) {
            Some(v) => v,
            None => Version { major: 0, minor: 0, patch: 0, pre: None },
        }
    }

    /// Parse `0.1.0`, `v0.1.0` or `v0.2.0-rc.1`; `None` for anything that is
    /// not such a tag.
    pub fn parse(text: &str) -> (r: Option<Version>)
        ensures
            match r {
                Some(v) => parse_spec(text@) == Some(v@),
                None => parse_spec(text@) is None,
            },
    {
        let all = text::chars(text);
        let trimmed = text::trim_chars(all.as_slice());
        let t = if trimmed.len() > 0 && trimmed[0] == 'v' {
            text::slice_chars(trimmed.as_slice(), 1, trimmed.len())
        } else {
            trimmed
        };
        assert(t@ =~= strip_v(text::trim(text@)));
        if text::has_char(t.as_slice(), '+') {
            return None;
        }
        let (core, pre) = match text::split_once_char(t.as_slice(), '-') {
            Some((c, p)) => (c, Some(p)),
            None => (t, None),
        };
        assert(core@ == core_and_pre(t@).0);
        assert(match pre {
            Some(p) => core_and_pre(t@).1 == Some(p@),
            None => core_and_pre(t@).1 is None,
        });
        let parts = text::split_char(core.as_slice(), '.');
        assert(text::views(parts@).len() == parts@.len());
        if parts.len() != 3 {
            return None;
        }
        assert(text::views(parts@)[0] == parts@[0]@);
        assert(text::views(parts@)[1] == parts@[1]@);
        assert(text::views(parts@)[2] == parts@[2]@);
        let major = match number(parts[0].as_slice()) {
            Some(n) => n,
            None => return None,
        };
        let minor = match number(parts[1].as_slice()) {
            Some(n) => n,
            None => return None,
        };
        let patch = match number(parts[2].as_slice()) {
            Some(n) => n,
            None => return None,
        };
        let pre = match pre {
            Some(p) => {
                if !pre_well_formed(p.as_slice()) {
                    return None;
                }
                Some(text::string_of(p.as_slice()))
            },
            None => None,
        };
        Some(Version { major, minor, patch, pre })
    }

    /// Whether this is a release proper rather than a candidate.
    pub fn is_release(&self) -> (r: bool)
        ensures
            r == (self.pre is None),
    {
        self.pre.is_none()
    }

    /// The version as it is shown and tagged, without the `v`:
    /// `0.2.0-rc.1`.
    pub fn to_string(&self) -> (s: String)
        ensures
            s@ == display(self@),
    {
        let mut s = String::new();
        text::push_decimal(&mut s, self.major);
        text::push_char(&mut s, '.');
        text::push_decimal(&mut s, self.minor);
        text::push_char(&mut s, '.');
        text::push_decimal(&mut s, self.patch);
        match &self.pre {
            Some(p) => {
                text::push_char(&mut s, '-');
                text::push_str(&mut s, p.as_str());
            },
            None => {},
        }
        assert(s@ =~= display(self@));
        s
    }

    /// Precedence as -1, 0 or 1.
    pub fn precedence(&self, other: &Version) -> (r: i8)
        ensures
            r as int == version_order(self@, other@),
    {
        if self.major != other.major {
            return nat_compare(self.major, other.major);
        }
        if self.minor != other.minor {
            return nat_compare(self.minor, other.minor);
        }
        if self.patch != other.patch {
            return nat_compare(self.patch, other.patch);
        }
        match (&self.pre, &other.pre) {
            (None, None) => 0,
            (None, Some(_)) => 1,
            (Some(_), None) => -1,
            (Some(a), Some(b)) => {
                let x = text::chars(a.as_str());
                let y = text::chars(b.as_str());
                pre_compare(x.as_slice(), y.as_slice())
            },
        }
    }
}

impl PartialOrd for Version {
    fn partial_cmp(&self, other: &Version) -> (r: Option<Ordering>) {
        let c = self.precedence(other);
        if c < 0 {
            Some(Ordering::Less)
        } else if c == 0 {
            Some(Ordering::Equal)
        } else {
            Some(Ordering::Greater)
        }
    }
}

impl PartialOrdSpecImpl for Version {
    open spec fn obeys_partial_cmp_spec() -> bool {
        true
    }

    open spec fn partial_cmp_spec(&self, other: &Version) -> Option<Ordering> {
        Some(ordering_of(version_order(self@, other@)))
    }
}

} // verus!
