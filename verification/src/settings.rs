//! Preferences: a flat `key = value` file.
//!
//! A settings file is a compatibility promise, and `key = value` is the one
//! that is easy to keep. An unknown key is kept and written back; a bad value
//! falls back to its default; a figure out of range is clamped rather than
//! refused.

use vstd::prelude::*;
use crate::text;
use crate::allow::join;
use crate::model::{self, SourceKind, Preferences};

verus! {

/// The file's name inside the configuration directory.
pub const FILE_NAME: &'static str = "settings.conf";

/// The format's version, written first.
pub const VERSION: u32 = 1;

/// How often the window may ask the sources for updates, in minutes.
pub const UPDATE_CHECK_MIN: u32 = 5;

pub const UPDATE_CHECK_MAX: u32 = 10080;

/// Which theme the interface wears; `System` follows the desktop.
#[derive(Clone, Copy, Debug, PartialEq, Eq, Structural)]
pub enum Theme {
    Dark,
    Light,
    System,
}

pub open spec fn theme_id(t: Theme) -> Seq<char> {
    match t {
        Theme::Dark => "dark"@,
        Theme::Light => "light"@,
        Theme::System => "system"@,
    }
}

pub open spec fn theme_of(id: Seq<char>) -> Option<Theme> {
    if id == "dark"@ {
        Some(Theme::Dark)
    } else if id == "light"@ {
        Some(Theme::Light)
    } else if id == "system"@ {
        Some(Theme::System)
    } else {
        None
    }
}

impl Theme {
    pub fn id(self) -> (r: &'static str)
        ensures
            r@ == theme_id(self),
    {
        match self {
            Theme::Dark => "dark",
            Theme::Light => "light",
            Theme::System => "system",
        }
    }

    pub fn parse(id: &str) -> (r: Option<Theme>)
        ensures
            r == theme_of(id@),
    {
        let t = text::chars(id);
        if text::eq_str(t.as_slice(), "dark") {
            Some(Theme::Dark)
        } else if text::eq_str(t.as_slice(), "light") {
            Some(Theme::Light)
        } else if text::eq_str(t.as_slice(), "system") {
            Some(Theme::System)
        } else {
            None
        }
    }
}

/// Which program builds AUR packages; `Auto` takes whichever is present.
#[derive(Clone, Copy, Debug, PartialEq, Eq, Structural)]
pub enum AurHelper {
    Auto,
    Paru,
    Yay,
    Builtin,
}

pub open spec fn helper_id(h: AurHelper) -> Seq<char> {
    match h {
        AurHelper::Auto => "auto"@,
        AurHelper::Paru => "paru"@,
        AurHelper::Yay => "yay"@,
        AurHelper::Builtin => "builtin"@,
    }
}

pub open spec fn helper_of(id: Seq<char>) -> Option<AurHelper> {
    if id == "auto"@ {
        Some(AurHelper::Auto)
    } else if id == "paru"@ {
        Some(AurHelper::Paru)
    } else if id == "yay"@ {
        Some(AurHelper::Yay)
    } else if id == "builtin"@ {
        Some(AurHelper::Builtin)
    } else {
        None
    }
}

impl AurHelper {
    pub fn id(self) -> (r: &'static str)
        ensures
            r@ == helper_id(self),
    {
        match self {
            AurHelper::Auto => "auto",
            AurHelper::Paru => "paru",
            AurHelper::Yay => "yay",
            AurHelper::Builtin => "builtin",
        }
    }

    pub fn parse(id: &str) -> (r: Option<AurHelper>)
        ensures
            r == helper_of(id@),
    {
        let t = text::chars(id);
        if text::eq_str(t.as_slice(), "auto") {
            Some(AurHelper::Auto)
        } else if text::eq_str(t.as_slice(), "paru") {
            Some(AurHelper::Paru)
        } else if text::eq_str(t.as_slice(), "yay") {
            Some(AurHelper::Yay)
        } else if text::eq_str(t.as_slice(), "builtin") {
            Some(AurHelper::Builtin)
        } else {
            None
        }
    }
}

/// Whether Flatpak installs go to the system installation or the user's.
#[derive(Clone, Copy, Debug, PartialEq, Eq, Structural)]
pub enum FlatpakScope {
    System,
    User,
}

pub open spec fn scope_id(s: FlatpakScope) -> Seq<char> {
    match s {
        FlatpakScope::System => "system"@,
        FlatpakScope::User => "user"@,
    }
}

pub open spec fn scope_of(id: Seq<char>) -> Option<FlatpakScope> {
    if id == "system"@ {
        Some(FlatpakScope::System)
    } else if id == "user"@ {
        Some(FlatpakScope::User)
    } else {
        None
    }
}

impl FlatpakScope {
    pub fn id(self) -> (r: &'static str)
        ensures
            r@ == scope_id(self),
    {
        match self {
            FlatpakScope::System => "system",
            FlatpakScope::User => "user",
        }
    }

    pub fn parse(id: &str) -> (r: Option<FlatpakScope>)
        ensures
            r == scope_of(id@),
    {
        let t = text::chars(id);
        if text::eq_str(t.as_slice(), "system") {
            Some(FlatpakScope::System)
        } else if text::eq_str(t.as_slice(), "user") {
            Some(FlatpakScope::User)
        } else {
            None
        }
    }
}

/// What is remembered between runs.
#[derive(Clone, Debug, PartialEq, Eq)]
pub struct Settings {
    pub theme: Theme,
    /// Which sources a search asks when the page does not say.
    pub enabled_sources: Vec<SourceKind>,
    /// Whether search shows plain packages beside applications.
    pub show_packages: bool,
    pub aur_helper: AurHelper,
    pub flatpak_scope: FlatpakScope,
    pub check_updates_on_start: bool,
    /// Whether BAP Store may ask GitHub about its own new versions unasked.
    pub self_update_check: bool,
    pub update_check_minutes: u32,
    /// Groups the user has split, as `source:id` of the wrong edition.
    pub split: Vec<String>,
    /// Lines this build did not understand, kept so they are written back.
    pub unknown: Vec<(String, String)>,
}

/// The settings as mathematics.
pub struct SettingsView {
    pub theme: Theme,
    pub enabled_sources: Seq<SourceKind>,
    pub show_packages: bool,
    pub aur_helper: AurHelper,
    pub flatpak_scope: FlatpakScope,
    pub check_updates_on_start: bool,
    pub self_update_check: bool,
    pub update_check_minutes: u32,
    pub split: Seq<Seq<char>>,
    pub unknown: Seq<(Seq<char>, Seq<char>)>,
}

pub open spec fn pairs_view(v: Seq<(String, String)>) -> Seq<(Seq<char>, Seq<char>)> {
    v.map_values(|p: (String, String)| (p.0@, p.1@))
}

impl View for Settings {
    type V = SettingsView;

    open spec fn view(&self) -> SettingsView {
        SettingsView {
            theme: self.theme,
            enabled_sources: self.enabled_sources@,
            show_packages: self.show_packages,
            aur_helper: self.aur_helper,
            flatpak_scope: self.flatpak_scope,
            check_updates_on_start: self.check_updates_on_start,
            self_update_check: self.self_update_check,
            update_check_minutes: self.update_check_minutes,
            split: model::strings_view(self.split@),
            unknown: pairs_view(self.unknown@),
        }
    }
}

pub open spec fn default_view() -> SettingsView {
    SettingsView {
        theme: Theme::System,
        enabled_sources: model::all_kinds(),
        show_packages: false,
        aur_helper: AurHelper::Auto,
        flatpak_scope: FlatpakScope::System,
        check_updates_on_start: true,
        self_update_check: true,
        update_check_minutes: 60,
        split: Seq::empty(),
        unknown: Seq::empty(),
    }
}

impl Default for Settings {
    fn default() -> (s: Settings)
        ensures
            s@ == default_view(),
    {
        let s = Settings {
            theme: Theme::System,
            enabled_sources: SourceKind::all(),
            show_packages: false,
            aur_helper: AurHelper::Auto,
            flatpak_scope: FlatpakScope::System,
            check_updates_on_start: true,
            self_update_check: true,
            update_check_minutes: 60,
            split: Vec::new(),
            unknown: Vec::new(),
        };
        assert(s@.split =~= Seq::<Seq<char>>::empty());
        assert(s@.unknown =~= Seq::<(Seq<char>, Seq<char>)>::empty());
        s
    }
}

/// The split key a group is remembered by: `source:id`.
pub open spec fn split_key(source: SourceKind, id: Seq<char>) -> Seq<char> {
    model::kind_id(source) + ":"@ + id
}

impl Settings {
    /// The part of the settings the sources act on.
    pub fn preferences(&self) -> (p: Preferences)
        ensures
            p.flatpak_user == (self.flatpak_scope == FlatpakScope::User),
            match self.aur_helper {
                AurHelper::Auto => p.aur_helper is None,
                other => p.aur_helper matches Some(h) && h@ == helper_id(other),
            },
    {
        Preferences {
            flatpak_user: self.flatpak_scope == FlatpakScope::User,
            aur_helper: match self.aur_helper {
                AurHelper::Auto => None,
                other => Some(text::string_from(other.id())),
            },
        }
    }

    /// Whether this source is one the user wants searched.
    pub fn is_enabled(&self, kind: SourceKind) -> (r: bool)
        ensures
            r == self.enabled_sources@.contains(kind),
    {
        let mut i: usize = 0;
        while i < self.enabled_sources.len()
            invariant
                i <= self.enabled_sources@.len(),
                forall|j: int| 0 <= j < i ==> self.enabled_sources@[j] != kind,
            decreases self.enabled_sources@.len() - i,
        {
            if self.enabled_sources[i] == kind {
                return true;
            }
            i = i + 1;
        }
        false
    }

    /// Record that a group was split at this edition. Idempotent.
    pub fn add_split(&mut self, source: SourceKind, id: &str)
        ensures
            final(self)@ == (if old(self)@.split.contains(split_key(source, id@)) {
                old(self)@
            } else {
                SettingsView { split: old(self)@.split.push(split_key(source, id@)), ..old(self)@ }
            }),
    {
        let mut key = text::string_from(source.id());
        text::push_str(&mut key, ":");
        text::push_str(&mut key, id);
        let k = text::chars(key.as_str());
        let ghost entries = model::strings_view(self.split@);
        let mut i: usize = 0;
        while i < self.split.len()
            invariant
                entries == model::strings_view(self.split@),
                k@ == split_key(source, id@),
                i <= self.split@.len(),
                forall|j: int| 0 <= j < i ==> entries[j] != k@,
            decreases self.split@.len() - i,
        {
            if text::eq_str(k.as_slice(), self.split[i].as_str()) {
                assert(entries[i as int] == k@);
                return;
            }
            i = i + 1;
        }
        let ghost before = self.split@;
        self.split.push(key);
        assert(model::strings_view(self.split@) =~= model::strings_view(before).push(k@));
    }
}

// ---------------------------------------------------------------------------
// Reading
// ---------------------------------------------------------------------------

/// A line without the carriage return that ends it, where one does.
pub open spec fn strip_cr(p: Seq<char>) -> Seq<char> {
    if p.len() > 0 && p.last() == '\r' {
        p.drop_last()
    } else {
        p
    }
}

/// `str::lines`: the pieces between newlines, without an empty last piece,
/// each without one carriage return at its end (a line may end in `\r\n`).
pub open spec fn lines_of(t: Seq<char>) -> Seq<Seq<char>> {
    let pieces = text::split(t, '\n');
    let kept = if pieces.len() > 0 && pieces.last().len() == 0 {
        pieces.drop_last()
    } else {
        pieces
    };
    strip_each(kept)
}

/// Each line without its ending carriage return.
pub open spec fn strip_each(ls: Seq<Seq<char>>) -> Seq<Seq<char>> {
    ls.map_values(|p: Seq<char>| strip_cr(p))
}

/// The lines of a text, as `str::lines` gives them.
pub fn lines(all: &[char]) -> (r: Vec<Vec<char>>)
    ensures
        text::views(r@) == lines_of(all@),
{
    let pieces = text::split_char(all, '\n');
    let ghost ps = text::views(pieces@);
    let mut n = pieces.len();
    if n > 0 && pieces[n - 1].len() == 0 {
        assert(ps.last() == pieces@[n - 1]@);
        n = n - 1;
    }
    let ghost kept = ps.take(n as int);
    assert(kept =~= (if ps.len() > 0 && ps.last().len() == 0 {
        ps.drop_last()
    } else {
        ps
    }));
    let mut out: Vec<Vec<char>> = Vec::new();
    let mut i: usize = 0;
    while i < n
        invariant
            ps == text::views(pieces@),
            kept == ps.take(n as int),
            n <= pieces@.len(),
            i <= n,
            text::views(out@) == strip_each(kept.take(i as int)),
        decreases n - i,
    {
        let piece = &pieces[i];
        assert(ps[i as int] == piece@);
        let m = piece.len();
        let line = if m > 0 && piece[m - 1] == '\r' {
            text::slice_chars(piece.as_slice(), 0, m - 1)
        } else {
            text::copy_chars(piece.as_slice())
        };
        proof {
            if m > 0 && piece@[m - 1] == '\r' {
                assert(line@ =~= piece@.drop_last());
            }
        }
        let ghost before = text::views(out@);
        out.push(line);
        assert(text::views(out@) =~= before.push(line@));
        assert(kept.take(i + 1) =~= kept.take(i as int).push(kept[i as int]));
        assert(text::views(out@) =~= strip_each(kept.take(i + 1)));
        i = i + 1;
    }
    assert(kept.take(n as int) =~= kept);
    out
}

/// `true` or `false` in one of their spellings; anything else keeps the
/// current value.
pub open spec fn flag_spec(value: Seq<char>, current: bool) -> bool {
    let v = text::lower_all(value);
    if v == "true"@ || v == "yes"@ || v == "on"@ || v == "1"@ {
        true
    } else if v == "false"@ || v == "no"@ || v == "off"@ || v == "0"@ {
        false
    } else {
        current
    }
}

pub open spec fn nonempty_pred() -> spec_fn(Seq<char>) -> bool {
    |w: Seq<char>| w.len() > 0
}

pub open spec fn trim_each(ps: Seq<Seq<char>>) -> Seq<Seq<char>> {
    ps.map_values(|w: Seq<char>| text::trim(w))
}

/// The non-empty trimmed pieces of a comma list.
pub open spec fn list_words(value: Seq<char>) -> Seq<Seq<char>> {
    trim_each(text::split(value, ',')).filter(nonempty_pred())
}

/// Whether one of the words names the source, in any case.
pub open spec fn named_by(words: Seq<Seq<char>>, k: SourceKind) -> bool {
    exists|i: int| 0 <= i < words.len() && model::kind_of_id(text::lower_all(#[trigger] words[i])) == Some(k)
}

/// The sources a list names, in interface order, once each; `None` when
/// the list names something but no source.
pub open spec fn named_pred(words: Seq<Seq<char>>) -> spec_fn(SourceKind) -> bool {
    |k: SourceKind| named_by(words, k)
}

pub open spec fn sources_of(value: Seq<char>) -> Option<Seq<SourceKind>> {
    let words = list_words(value);
    let kinds = model::all_kinds().filter(named_pred(words));
    if words.len() == 0 {
        Some(Seq::empty())
    } else if kinds.len() == 0 {
        None
    } else {
        Some(kinds)
    }
}

/// Whether a split entry can ever match: a known source, a colon, an id.
pub open spec fn split_entry_ok(entry: Seq<char>) -> bool {
    match text::split_once(entry, ':') {
        Some((source, id)) => model::kind_of_id(source) is Some && id.len() > 0,
        None => false,
    }
}

/// The usable entries of a split list, in order, once each.
pub open spec fn keep_split(kept: Seq<Seq<char>>, entries: Seq<Seq<char>>) -> Seq<Seq<char>>
    decreases entries.len(),
{
    if entries.len() == 0 {
        kept
    } else {
        let e = entries[0];
        let next = if split_entry_ok(e) && !kept.contains(e) {
            kept.push(e)
        } else {
            kept
        };
        keep_split(next, entries.drop_first())
    }
}

pub open spec fn split_of(value: Seq<char>) -> Seq<Seq<char>> {
    keep_split(Seq::empty(), list_words(value))
}

/// What a key and its value, both trimmed, do to the settings read so far:
/// a known key sets its field when the value is good and leaves it when
/// not; an unknown key is kept with its value.
pub open spec fn apply_kv(s: SettingsView, key: Seq<char>, value: Seq<char>) -> SettingsView {
    if key == "version"@ {
        s
    } else if key == "theme"@ {
        match theme_of(text::lower_all(value)) {
            Some(t) => SettingsView { theme: t, ..s },
            None => s,
        }
    } else if key == "enabled_sources"@ {
        match sources_of(value) {
            Some(list) => SettingsView { enabled_sources: list, ..s },
            None => s,
        }
    } else if key == "show_packages"@ {
        SettingsView { show_packages: flag_spec(value, s.show_packages), ..s }
    } else if key == "aur_helper"@ {
        match helper_of(text::lower_all(value)) {
            Some(h) => SettingsView { aur_helper: h, ..s },
            None => s,
        }
    } else if key == "flatpak_scope"@ {
        match scope_of(text::lower_all(value)) {
            Some(f) => SettingsView { flatpak_scope: f, ..s },
            None => s,
        }
    } else if key == "check_updates_on_start"@ {
        SettingsView { check_updates_on_start: flag_spec(value, s.check_updates_on_start), ..s }
    } else if key == "self_update_check"@ {
        SettingsView { self_update_check: flag_spec(value, s.self_update_check), ..s }
    } else if key == "update_check_minutes"@ {
        match text::parse_unsigned(value, u32::MAX as nat) {
            Some(m) => SettingsView {
                update_check_minutes: if m < 5 {
                    5u32
                } else if m > 10080 {
                    10080u32
                } else {
                    m as u32
                },
                ..s
            },
            None => s,
        }
    } else if key == "split"@ {
        SettingsView { split: split_of(value), ..s }
    } else {
        SettingsView { unknown: s.unknown.push((key, value)), ..s }
    }
}

/// What one line does to the settings read so far: blank lines and
/// comments nothing, a line without `=` nothing, else its key and value.
pub open spec fn apply_line(s: SettingsView, line: Seq<char>) -> SettingsView {
    let l = text::trim(line);
    if l.len() == 0 || l[0] == '#' {
        s
    } else {
        match text::split_once(l, '=') {
            None => s,
            Some((k, v)) => apply_kv(s, text::trim(k), text::trim(v)),
        }
    }
}

pub open spec fn apply_lines(s: SettingsView, lines: Seq<Seq<char>>) -> SettingsView
    decreases lines.len(),
{
    if lines.len() == 0 {
        s
    } else {
        apply_lines(apply_line(s, lines[0]), lines.drop_first())
    }
}

/// What a settings text reads as: the defaults, with each line applied in
/// turn.
pub open spec fn parse_spec(t: Seq<char>) -> SettingsView {
    apply_lines(default_view(), lines_of(t))
}

fn flag(value: &[char], current: bool) -> (r: bool)
    ensures
        r == flag_spec(value@, current),
{
    let v = text::lower_chars(value);
    let s = v.as_slice();
    if text::eq_str(s, "true") || text::eq_str(s, "yes") || text::eq_str(s, "on") || text::eq_str(
        s,
        "1",
    ) {
        true
    } else if text::eq_str(s, "false") || text::eq_str(s, "no") || text::eq_str(s, "off")
        || text::eq_str(s, "0") {
        false
    } else {
        current
    }
}

fn words_of_list(value: &[char]) -> (r: Vec<Vec<char>>)
    ensures
        text::views(r@) == list_words(value@),
{
    let pieces = text::split_char(value, ',');
    let ghost ps = text::views(pieces@);
    let ghost trimmed = trim_each(ps);
    let mut out: Vec<Vec<char>> = Vec::new();
    let mut i: usize = 0;
    assert(trimmed.take(0) =~= Seq::<Seq<char>>::empty());
    proof {
        reveal(Seq::filter);
    }
    while i < pieces.len()
        invariant
            ps == text::views(pieces@),
            ps == text::split(value@, ','),
            trimmed == trim_each(ps),
            ps.len() == pieces@.len(),
            i <= pieces@.len(),
            text::views(out@) == trimmed.take(i as int).filter(nonempty_pred()),
        decreases pieces@.len() - i,
    {
        let w = text::trim_chars(pieces[i].as_slice());
        assert(w@ == trimmed[i as int]);
        assert(trimmed.take(i + 1) =~= trimmed.take(i as int).push(w@));
        proof {
            trimmed.take(i as int).lemma_filter_push(w@, nonempty_pred());
        }
        let ghost before = out@;
        if w.len() > 0 {
            out.push(w);
            assert(text::views(out@) =~= text::views(before).push(w@));
        }
        i = i + 1;
    }
    assert(trimmed.take(trimmed.len() as int) =~= trimmed);
    out
}

fn lowered_string(w: &[char]) -> (r: String)
    ensures
        r@ == text::lower_all(w@),
{
    let l = text::lower_chars(w);
    text::string_of(l.as_slice())
}

/// A comma list of source ids: trimmed, any case, in interface order once
/// each. An empty list is honoured; a list where nothing parses is a
/// damaged line and yields `None`.
pub fn parse_sources(value: &str) -> (r: Option<Vec<SourceKind>>)
    ensures
        match r {
            Some(v) => sources_of(value@) == Some(v@),
            None => sources_of(value@) is None,
        },
{
    let chars = text::chars(value);
    let words = words_of_list(chars.as_slice());
    let ghost w = text::views(words@);
    if words.len() == 0 {
        let none: Vec<SourceKind> = Vec::new();
        assert(none@ =~= Seq::<SourceKind>::empty());
        return Some(none);
    }
    let kinds = SourceKind::all();
    let ghost all = model::all_kinds();
    let mut out: Vec<SourceKind> = Vec::new();
    let mut j: usize = 0;
    proof {
        reveal(Seq::filter);
        assert(all.take(0) =~= Seq::<SourceKind>::empty());
    }
    while j < kinds.len()
        invariant
            w == text::views(words@),
            w == list_words(value@),
            kinds@ == all,
            all == model::all_kinds(),
            j <= kinds@.len(),
            out@ == all.take(j as int).filter(named_pred(w)),
        decreases kinds@.len() - j,
    {
        let k = kinds[j];
        let mut found = false;
        let mut i: usize = 0;
        while i < words.len() && !found
            invariant
                w == text::views(words@),
                i <= words@.len(),
                found ==> named_by(w, k),
                !found ==> forall|x: int|
                    0 <= x < i ==> model::kind_of_id(text::lower_all(#[trigger] w[x])) != Some(k),
            decreases words@.len() - i,
        {
            let lw = lowered_string(words[i].as_slice());
            assert(w[i as int] == words@[i as int]@);
            match SourceKind::parse(lw.as_str()) {
                Some(p) => {
                    if p == k {
                        found = true;
                    }
                },
                None => {},
            }
            i = i + 1;
        }
        assert(found == named_by(w, k));
        assert(all.take(j + 1) =~= all.take(j as int).push(k));
        proof {
            all.take(j as int).lemma_filter_push(k, named_pred(w));
        }
        if found {
            out.push(k);
        }
        j = j + 1;
    }
    assert(all.take(all.len() as int) =~= all);
    if out.len() == 0 {
        None
    } else {
        Some(out)
    }
}

fn entry_ok(entry: &[char]) -> (r: bool)
    ensures
        r == split_entry_ok(entry@),
{
    match text::split_once_char(entry, ':') {
        Some((source, id)) => {
            let s = text::string_of(source.as_slice());
            SourceKind::parse(s.as_str()).is_some() && id.len() > 0
        },
        None => false,
    }
}

/// A comma list of `source:id`, without entries that can never match and
/// without repeats.
pub fn parse_split(value: &str) -> (r: Vec<String>)
    ensures
        model::strings_view(r@) == split_of(value@),
{
    let chars = text::chars(value);
    let words = words_of_list(chars.as_slice());
    let ghost w = text::views(words@);
    let mut out: Vec<String> = Vec::new();
    let mut i: usize = 0;
    assert(w.skip(0) =~= w);
    assert(model::strings_view(out@) =~= Seq::<Seq<char>>::empty());
    while i < words.len()
        invariant
            w == text::views(words@),
            w == list_words(value@),
            i <= words@.len(),
            keep_split(model::strings_view(out@), w.skip(i as int)) == split_of(value@),
        decreases words@.len() - i,
    {
        let e = &words[i];
        assert(w.skip(i as int)[0] == e@);
        assert(w.skip(i as int).drop_first() =~= w.skip(i + 1));
        let ghost kept = model::strings_view(out@);
        let mut seen = false;
        let mut j: usize = 0;
        while j < out.len() && !seen
            invariant
                kept == model::strings_view(out@),
                j <= out@.len(),
                seen ==> kept.contains(e@),
                !seen ==> forall|x: int| 0 <= x < j ==> kept[x] != e@,
            decreases out@.len() - j,
        {
            if text::eq_str(e.as_slice(), out[j].as_str()) {
                assert(kept[j as int] == e@);
                seen = true;
            }
            j = j + 1;
        }
        if entry_ok(e.as_slice()) && !seen {
            out.push(text::string_of(e.as_slice()));
            assert(model::strings_view(out@) =~= kept.push(e@));
        }
        i = i + 1;
    }
    assert(w.skip(w.len() as int) =~= Seq::<Seq<char>>::empty());
    out
}

fn apply(settings: &mut Settings, line: &[char])
    ensures
        final(settings)@ == apply_line(old(settings)@, line@),
{
    let l = text::trim_chars(line);
    if l.len() == 0 || l[0] == '#' {
        return;
    }
    let (k, v) = match text::split_once_char(l.as_slice(), '=') {
        Some(found) => found,
        None => return,
    };
    let key = text::trim_chars(k.as_slice());
    let value = text::trim_chars(v.as_slice());
    let key = key.as_slice();
    let value = value.as_slice();
    if text::eq_str(key, "version") {
    } else if text::eq_str(key, "theme") {
        let lv = lowered_string(value);
        match Theme::parse(lv.as_str()) {
            Some(t) => settings.theme = t,
            None => {},
        }
    } else if text::eq_str(key, "enabled_sources") {
        let vs = text::string_of(value);
        match parse_sources(vs.as_str()) {
            Some(list) => settings.enabled_sources = list,
            None => {},
        }
    } else if text::eq_str(key, "show_packages") {
        settings.show_packages = flag(value, settings.show_packages);
    } else if text::eq_str(key, "aur_helper") {
        let lv = lowered_string(value);
        match AurHelper::parse(lv.as_str()) {
            Some(h) => settings.aur_helper = h,
            None => {},
        }
    } else if text::eq_str(key, "flatpak_scope") {
        let lv = lowered_string(value);
        match FlatpakScope::parse(lv.as_str()) {
            Some(f) => settings.flatpak_scope = f,
            None => {},
        }
    } else if text::eq_str(key, "check_updates_on_start") {
        settings.check_updates_on_start = flag(value, settings.check_updates_on_start);
    } else if text::eq_str(key, "self_update_check") {
        settings.self_update_check = flag(value, settings.self_update_check);
    } else if text::eq_str(key, "update_check_minutes") {
        match text::parse_unsigned_chars(value, u32::MAX as u64) {
            Some(m) => {
                settings.update_check_minutes = if m < 5 {
                    5
                } else if m > 10080 {
                    10080
                } else {
                    m as u32
                };
            },
            None => {},
        }
    } else if text::eq_str(key, "split") {
        let vs = text::string_of(value);
        settings.split = parse_split(vs.as_str());
    } else {
        let ghost before = settings.unknown@;
        settings.unknown.push((text::string_of(key), text::string_of(value)));
        assert(pairs_view(settings.unknown@) =~= pairs_view(before).push((key@, value@)));
    }
}

/// The parser, over text: the defaults, with each line applied in turn.
pub fn parse(text: &str) -> (r: Settings)
    ensures
        r@ == parse_spec(text@),
{
    let all = text::chars(text);
    let pieces = lines(all.as_slice());
    let ghost ps = text::views(pieces@);
    let n = pieces.len();
    let ghost lines = lines_of(text@);
    assert(lines =~= ps.take(n as int));
    let mut settings = Settings::default();
    let mut i: usize = 0;
    assert(lines.skip(0) =~= lines);
    while i < n
        invariant
            ps == text::views(pieces@),
            lines == ps.take(n as int),
            lines == lines_of(text@),
            n <= pieces@.len(),
            i <= n,
            apply_lines(settings@, lines.skip(i as int)) == parse_spec(text@),
        decreases n - i,
    {
        assert(lines.skip(i as int)[0] == pieces@[i as int]@);
        assert(lines.skip(i as int).drop_first() =~= lines.skip(i + 1));
        apply(&mut settings, pieces[i].as_slice());
        i = i + 1;
    }
    settings
}

// ---------------------------------------------------------------------------
// Writing
// ---------------------------------------------------------------------------

pub open spec fn bool_text(b: bool) -> Seq<char> {
    if b {
        "true"@
    } else {
        "false"@
    }
}

pub open spec fn source_ids(v: Seq<SourceKind>) -> Seq<Seq<char>> {
    v.map_values(|k: SourceKind| model::kind_id(k))
}

/// The file's text: the version, every known key in a fixed order, then
/// the unknown lines as they were read, each line ending in a newline.
pub open spec fn render_spec(s: SettingsView) -> Seq<char> {
    joined_lines(render_lines(s))
}

fn push_bool(s: &mut String, b: bool)
    ensures
        final(s)@ == old(s)@ + bool_text(b),
{
    if b {
        text::push_str(s, "true");
    } else {
        text::push_str(s, "false");
    }
}

fn push_joined(s: &mut String, words: &Vec<String>, sep: &str)
    ensures
        final(s)@ == old(s)@ + join(model::strings_view(words@), sep@),
{
    let ghost w = model::strings_view(words@);
    let ghost start = s@;
    let mut i: usize = 0;
    while i < words.len()
        invariant
            w == model::strings_view(words@),
            i <= words@.len(),
            s@ == start + join(w.take(i as int), sep@),
        decreases words@.len() - i,
    {
        if i > 0 {
            text::push_str(s, sep);
        }
        text::push_str(s, words[i].as_str());
        proof {
            let t = w.take(i + 1);
            assert(t.drop_last() =~= w.take(i as int));
            assert(t.last() == words@[i as int]@);
            if i == 0 {
                assert(w.take(0) =~= Seq::<Seq<char>>::empty());
            }
        }
        assert(s@ =~= start + join(w.take(i + 1), sep@));
        i = i + 1;
    }
    assert(w.take(w.len() as int) =~= w);
}

fn push_sources(s: &mut String, kinds: &Vec<SourceKind>)
    ensures
        final(s)@ == old(s)@ + join(source_ids(kinds@), ","@),
{
    let ghost w = source_ids(kinds@);
    let ghost start = s@;
    let mut i: usize = 0;
    while i < kinds.len()
        invariant
            w == source_ids(kinds@),
            i <= kinds@.len(),
            s@ == start + join(w.take(i as int), ","@),
        decreases kinds@.len() - i,
    {
        if i > 0 {
            text::push_str(s, ",");
        }
        text::push_str(s, kinds[i].id());
        proof {
            let t = w.take(i + 1);
            assert(t.drop_last() =~= w.take(i as int));
            assert(t.last() == model::kind_id(kinds@[i as int]));
            if i == 0 {
                assert(w.take(0) =~= Seq::<Seq<char>>::empty());
            }
        }
        assert(s@ =~= start + join(w.take(i + 1), ","@));
        i = i + 1;
    }
    assert(w.take(w.len() as int) =~= w);
}

fn push_line(out: &mut String, key: &str, value: &str, Ghost(lines): Ghost<Seq<Seq<char>>>)
    requires
        old(out)@ == joined_lines(lines),
    ensures
        final(out)@ == joined_lines(lines.push(kv_line(key@, value@))),
{
    text::push_str(out, key);
    text::push_str(out, " = ");
    text::push_str(out, value);
    text::push_str(out, "\n");
    proof {
        reveal_strlit("\n");
        lemma_joined_push(lines, kv_line(key@, value@));
    }
}

/// The file's text, for writing or for showing.
pub fn render(settings: &Settings) -> (r: String)
    ensures
        r@ == render_spec(settings@),
{
    let ghost s = settings@;
    let mut out = String::new();
    let ghost l0 = Seq::<Seq<char>>::empty();
    assert(out@ =~= joined_lines(l0));
    push_line(&mut out, "version", "1", Ghost(l0));
    let ghost l1 = l0.push(kv_line("version"@, "1"@));
    push_line(&mut out, "theme", settings.theme.id(), Ghost(l1));
    let ghost l2 = l1.push(kv_line("theme"@, theme_id(s.theme)));
    let mut sources = String::new();
    push_sources(&mut sources, &settings.enabled_sources);
    assert(sources@ =~= join(source_ids(s.enabled_sources), ","@));
    push_line(&mut out, "enabled_sources", sources.as_str(), Ghost(l2));
    let ghost l3 = l2.push(kv_line("enabled_sources"@, join(source_ids(s.enabled_sources), ","@)));
    let mut b = String::new();
    push_bool(&mut b, settings.show_packages);
    assert(b@ =~= bool_text(s.show_packages));
    push_line(&mut out, "show_packages", b.as_str(), Ghost(l3));
    let ghost l4 = l3.push(kv_line("show_packages"@, bool_text(s.show_packages)));
    push_line(&mut out, "aur_helper", settings.aur_helper.id(), Ghost(l4));
    let ghost l5 = l4.push(kv_line("aur_helper"@, helper_id(s.aur_helper)));
    push_line(&mut out, "flatpak_scope", settings.flatpak_scope.id(), Ghost(l5));
    let ghost l6 = l5.push(kv_line("flatpak_scope"@, scope_id(s.flatpak_scope)));
    let mut b = String::new();
    push_bool(&mut b, settings.check_updates_on_start);
    assert(b@ =~= bool_text(s.check_updates_on_start));
    push_line(&mut out, "check_updates_on_start", b.as_str(), Ghost(l6));
    let ghost l7 = l6.push(kv_line("check_updates_on_start"@, bool_text(s.check_updates_on_start)));
    let mut b = String::new();
    push_bool(&mut b, settings.self_update_check);
    assert(b@ =~= bool_text(s.self_update_check));
    push_line(&mut out, "self_update_check", b.as_str(), Ghost(l7));
    let ghost l8 = l7.push(kv_line("self_update_check"@, bool_text(s.self_update_check)));
    let mut m = String::new();
    text::push_decimal(&mut m, settings.update_check_minutes as u64);
    assert(m@ =~= text::decimal(s.update_check_minutes as nat));
    push_line(&mut out, "update_check_minutes", m.as_str(), Ghost(l8));
    let ghost l9 = l8.push(kv_line("update_check_minutes"@, text::decimal(s.update_check_minutes as nat)));
    let mut sp = String::new();
    push_joined(&mut sp, &settings.split, ",");
    assert(sp@ =~= join(s.split, ","@));
    push_line(&mut out, "split", sp.as_str(), Ghost(l9));
    let ghost head = l9.push(kv_line("split"@, join(s.split, ","@)));
    let ghost u = pairs_view(settings.unknown@);
    let mut i: usize = 0;
    assert(unknown_kv_lines(u.take(0)) =~= Seq::<Seq<char>>::empty());
    assert(head + unknown_kv_lines(u.take(0)) =~= head);
    while i < settings.unknown.len()
        invariant
            u == pairs_view(settings.unknown@),
            i <= settings.unknown@.len(),
            out@ == joined_lines(head + unknown_kv_lines(u.take(i as int))),
        decreases settings.unknown@.len() - i,
    {
        let ghost ls = head + unknown_kv_lines(u.take(i as int));
        push_line(
            &mut out,
            settings.unknown[i].0.as_str(),
            settings.unknown[i].1.as_str(),
            Ghost(ls),
        );
        assert(u[i as int] == (settings.unknown@[i as int].0@, settings.unknown@[i as int].1@));
        assert(u.take(i + 1) =~= u.take(i as int).push(u[i as int]));
        assert(head + unknown_kv_lines(u.take(i + 1)) =~= ls.push(
            kv_line(settings.unknown@[i as int].0@, settings.unknown@[i as int].1@),
        ));
        i = i + 1;
    }
    assert(u.take(u.len() as int) =~= u);
    assert(head + unknown_kv_lines(u) =~= render_lines(s));
    out
}

// ---------------------------------------------------------------------------
// The round trip
// ---------------------------------------------------------------------------

/// Lines, each followed by a newline.
pub open spec fn joined_lines(ls: Seq<Seq<char>>) -> Seq<char>
    decreases ls.len(),
{
    if ls.len() == 0 {
        Seq::empty()
    } else {
        ls[0] + seq!['\n'] + joined_lines(ls.drop_first())
    }
}

pub open spec fn kv_line(k: Seq<char>, v: Seq<char>) -> Seq<char> {
    k + " = "@ + v
}

pub open spec fn unknown_kv_lines(u: Seq<(Seq<char>, Seq<char>)>) -> Seq<Seq<char>> {
    u.map_values(|p: (Seq<char>, Seq<char>)| kv_line(p.0, p.1))
}

/// The lines of the file the writer makes, in order.
pub open spec fn render_lines(s: SettingsView) -> Seq<Seq<char>> {
    seq![
        kv_line("version"@, "1"@),
        kv_line("theme"@, theme_id(s.theme)),
        kv_line("enabled_sources"@, join(source_ids(s.enabled_sources), ","@)),
        kv_line("show_packages"@, bool_text(s.show_packages)),
        kv_line("aur_helper"@, helper_id(s.aur_helper)),
        kv_line("flatpak_scope"@, scope_id(s.flatpak_scope)),
        kv_line("check_updates_on_start"@, bool_text(s.check_updates_on_start)),
        kv_line("self_update_check"@, bool_text(s.self_update_check)),
        kv_line("update_check_minutes"@, text::decimal(s.update_check_minutes as nat)),
        kv_line("split"@, join(s.split, ","@)),
    ] + unknown_kv_lines(s.unknown)
}

proof fn lemma_joined_append(a: Seq<Seq<char>>, b: Seq<Seq<char>>)
    ensures
        joined_lines(a + b) == joined_lines(a) + joined_lines(b),
    decreases a.len(),
{
    if a.len() == 0 {
        assert(a + b =~= b);
    } else {
        assert((a + b).drop_first() =~= a.drop_first() + b);
        lemma_joined_append(a.drop_first(), b);
    }
}

proof fn lemma_joined_push(ls: Seq<Seq<char>>, l: Seq<char>)
    ensures
        joined_lines(ls.push(l)) == joined_lines(ls) + l + seq!['\n'],
{
    let one = seq![l];
    assert(ls.push(l) =~= ls + one);
    lemma_joined_append(ls, one);
    assert(one.drop_first() =~= Seq::<Seq<char>>::empty());
    assert(joined_lines(Seq::<Seq<char>>::empty()) =~= Seq::<char>::empty());
    assert(joined_lines(one) =~= l + seq!['\n']);
    assert(joined_lines(ls) + (l + seq!['\n']) =~= joined_lines(ls) + l + seq!['\n']);
}

/// Text of lines without newlines, each followed by one, splits back into
/// those lines and an empty last piece.
proof fn lemma_split_joined(ls: Seq<Seq<char>>)
    requires
        forall|i: int| 0 <= i < ls.len() ==> !(#[trigger] ls[i]).contains('\n'),
    ensures
        text::split(joined_lines(ls), '\n') == ls.push(Seq::<char>::empty()),
    decreases ls.len(),
{
    if ls.len() == 0 {
        assert(!Seq::<char>::empty().contains('\n'));
        text::lemma_split_absent(Seq::<char>::empty(), '\n');
        assert(ls.push(Seq::<char>::empty()) =~= seq![Seq::<char>::empty()]);
    } else {
        let rest = ls.drop_first();
        assert forall|i: int| 0 <= i < rest.len() implies !(#[trigger] rest[i]).contains('\n') by {
            assert(rest[i] == ls[i + 1]);
        }
        lemma_split_joined(rest);
        assert(!ls[0].contains('\n'));
        text::lemma_split_first(ls[0], '\n', joined_lines(rest));
        assert(ls.push(Seq::<char>::empty()) =~= seq![ls[0]] + rest.push(Seq::<char>::empty()));
    }
}

/// How a yes-or-no setting reads, in any case: `true`, `yes`, `on` and `1`
/// turn it on; `false`, `no`, `off` and `0` turn it off; any other value
/// leaves it as it was. The same holds of each of the three yes-or-no keys
/// a settings line can set.
pub proof fn lemma_flag_words(s: SettingsView, value: Seq<char>, current: bool)
    ensures
        ({
            let v = text::lower_all(value);
            &&& (v == "true"@ || v == "yes"@ || v == "on"@ || v == "1"@) ==> flag_spec(value, current)
            &&& (v == "false"@ || v == "no"@ || v == "off"@ || v == "0"@) ==> !flag_spec(value, current)
            &&& !(v == "true"@ || v == "yes"@ || v == "on"@ || v == "1"@ || v == "false"@ || v == "no"@ || v
                == "off"@ || v == "0"@) ==> flag_spec(value, current) == current
        }),
        (text::lower_all(value) == "false"@ || text::lower_all(value) == "no"@ || text::lower_all(value) == "off"@
            || text::lower_all(value) == "0"@) ==> {
            &&& !apply_kv(s, "check_updates_on_start"@, value).check_updates_on_start
            &&& !apply_kv(s, "self_update_check"@, value).self_update_check
            &&& !apply_kv(s, "show_packages"@, value).show_packages
        },
        (text::lower_all(value) == "true"@ || text::lower_all(value) == "yes"@ || text::lower_all(value) == "on"@
            || text::lower_all(value) == "1"@) ==> {
            &&& apply_kv(s, "check_updates_on_start"@, value).check_updates_on_start
            &&& apply_kv(s, "self_update_check"@, value).self_update_check
            &&& apply_kv(s, "show_packages"@, value).show_packages
        },
{
    reveal_strlit("true");
    reveal_strlit("yes");
    reveal_strlit("on");
    reveal_strlit("1");
    reveal_strlit("false");
    reveal_strlit("no");
    reveal_strlit("off");
    reveal_strlit("0");
    lemma_keys();
    assert("true"@ != "false"@) by { assert("true"@[0] != "false"@[0]); }
    assert("true"@ != "no"@) by { assert("true"@[0] != "no"@[0]); }
    assert("true"@ != "off"@) by { assert("true"@[0] != "off"@[0]); }
    assert("true"@ != "0"@) by { assert("true"@[0] != "0"@[0]); }
    assert("yes"@ != "false"@) by { assert("yes"@[0] != "false"@[0]); }
    assert("yes"@ != "no"@) by { assert("yes"@[0] != "no"@[0]); }
    assert("yes"@ != "off"@) by { assert("yes"@[0] != "off"@[0]); }
    assert("yes"@ != "0"@) by { assert("yes"@[0] != "0"@[0]); }
    assert("on"@ != "false"@) by { assert("on"@[0] != "false"@[0]); }
    assert("on"@ != "no"@) by { assert("on"@[0] != "no"@[0]); }
    assert("on"@ != "off"@) by { assert("on"@.len() != "off"@.len()); }
    assert("on"@ != "0"@) by { assert("on"@[0] != "0"@[0]); }
    assert("1"@ != "false"@) by { assert("1"@[0] != "false"@[0]); }
    assert("1"@ != "no"@) by { assert("1"@[0] != "no"@[0]); }
    assert("1"@ != "off"@) by { assert("1"@[0] != "off"@[0]); }
    assert("1"@ != "0"@) by { assert("1"@[0] != "0"@[0]); }
}

proof fn lemma_lines_of_joined(ls: Seq<Seq<char>>)
    requires
        forall|i: int| 0 <= i < ls.len() ==> !(#[trigger] ls[i]).contains('\n'),
    ensures
        lines_of(joined_lines(ls)) == strip_each(ls),
{
    lemma_split_joined(ls);
    assert(ls.push(Seq::<char>::empty()).drop_last() =~= ls);
}

proof fn lemma_trim_start_drop_space(s: Seq<char>)
    requires
        s.len() > 0,
        text::is_space(s.last()),
    ensures
        text::trim_start(s) == (if text::trim_start(s.drop_last()).len() == 0 {
            Seq::<char>::empty()
        } else {
            text::trim_start(s.drop_last()).push(s.last())
        }),
    decreases s.len(),
{
    if text::is_space(s[0]) {
        assert(text::trim_start(s) == text::trim_start(s.drop_first()));
        if s.len() == 1 {
            assert(s.drop_first() =~= Seq::<char>::empty());
            assert(s.drop_last() =~= Seq::<char>::empty());
            assert(text::trim_start(Seq::<char>::empty()) == Seq::<char>::empty());
        } else {
            let t = s.drop_first();
            lemma_trim_start_drop_space(t);
            assert(t.last() == s.last());
            assert(t.drop_last() =~= s.drop_last().drop_first());
            assert(s.drop_last()[0] == s[0]);
            assert(text::trim_start(s.drop_last()) == text::trim_start(s.drop_last().drop_first()));
        }
    } else {
        assert(s.len() >= 2);
        assert(s.drop_last()[0] == s[0]);
        assert(text::trim_start(s) == s);
        assert(text::trim_start(s.drop_last()) == s.drop_last());
        assert(s.drop_last().push(s.last()) =~= s);
    }
}

proof fn lemma_trim_strip_cr(p: Seq<char>)
    ensures
        text::trim(strip_cr(p)) == text::trim(p),
{
    if p.len() > 0 && p.last() == '\r' {
        lemma_trim_start_drop_space(p);
        let t = text::trim_start(p.drop_last());
        if t.len() > 0 {
            assert(t.push(p.last()).drop_last() =~= t);
        }
    }
}

proof fn lemma_apply_lines_strip(st: SettingsView, ls: Seq<Seq<char>>)
    ensures
        apply_lines(st, strip_each(ls)) == apply_lines(st, ls),
    decreases ls.len(),
{
    if ls.len() > 0 {
        lemma_trim_strip_cr(ls[0]);
        assert(strip_each(ls)[0] == strip_cr(ls[0]));
        assert(strip_each(ls).drop_first() =~= strip_each(ls.drop_first()));
        lemma_apply_lines_strip(apply_line(st, ls[0]), ls.drop_first());
    }
}


proof fn lemma_trimmed_ends(k: Seq<char>)
    requires
        text::trim(k) == k,
        k.len() > 0,
    ensures
        !text::is_space(k[0]),
        !text::is_space(k.last()),
{
    lemma_trim_start_len(k);
    lemma_trim_end_len(text::trim_start(k));
    if text::is_space(k[0]) {
        lemma_trim_start_len(k.drop_first());
    }
    if text::is_space(k.last()) && !text::is_space(k[0]) {
        assert(text::trim_start(k) == k);
        lemma_trim_end_len(k.drop_last());
    }
}

proof fn lemma_trim_start_len(s: Seq<char>)
    ensures
        text::trim_start(s).len() <= s.len(),
        text::trim_start(s).len() == s.len() ==> text::trim_start(s) == s,
    decreases s.len(),
{
    if s.len() > 0 && text::is_space(s[0]) {
        lemma_trim_start_len(s.drop_first());
    }
}

proof fn lemma_trim_end_len(s: Seq<char>)
    ensures
        text::trim_end(s).len() <= s.len(),
        text::trim_end(s).len() == s.len() ==> text::trim_end(s) == s,
    decreases s.len(),
{
    if s.len() > 0 && text::is_space(s.last()) {
        lemma_trim_end_len(s.drop_last());
    }
}

/// Text that neither starts nor ends with white space is its own trim.
proof fn lemma_trim_fixed(a: Seq<char>)
    requires
        a.len() > 0 ==> !text::is_space(a[0]) && !text::is_space(a.last()),
    ensures
        text::trim(a) == a,
{
}

/// A key and a value written as `key = value` read back as that key and
/// that value.
proof fn lemma_apply_line_kv(s: SettingsView, k: Seq<char>, v: Seq<char>)
    requires
        k.len() > 0,
        text::trim(k) == k,
        k[0] != '#',
        !k.contains('='),
        text::trim(v) == v,
    ensures
        apply_line(s, kv_line(k, v)) == apply_kv(s, k, v),
{
    reveal_strlit(" = ");
    let line = kv_line(k, v);
    lemma_trimmed_ends(k);
    let n = k.len() as int;
    let t = if v.len() > 0 {
        line
    } else {
        k + seq![' ', '=']
    };
    if v.len() > 0 {
        lemma_trimmed_ends(v);
        assert(line[0] == k[0]);
        assert(line.last() == v.last());
        lemma_trim_fixed(line);
    } else {
        assert(line =~= k + seq![' ', '=', ' ']);
        assert(text::trim_start(line) == line);
        assert(line.drop_last() =~= t);
        assert(text::trim_end(t) == t);
    }
    assert(text::trim(line) == t);
    assert(t[0] == k[0]);
    assert(t[n + 1] == '=');
    assert forall|j: int| 0 <= j < n + 1 implies t[j] != '=' by {
        if j < n {
            assert(t[j] == k[j]);
            if k[j] == '=' {
                assert(k.contains('='));
            }
        }
    }
    assert(text::first_at(t, '=', n + 1));
    text::lemma_first_at_is_find(t, '=', n + 1);
    let before = t.take(n + 1);
    let after = t.skip(n + 2);
    assert(before =~= k + seq![' ']);
    assert(text::trim_start(before) == before);
    assert(before.drop_last() =~= k);
    assert(text::trim(before) == k);
    if v.len() > 0 {
        assert(after =~= seq![' '] + v);
        assert(after.drop_first() =~= v);
        lemma_trimmed_ends(v);
        assert(text::trim_start(after) == text::trim_start(v));
        assert(text::trim(after) == v);
    } else {
        assert(after =~= Seq::<char>::empty());
        assert(text::trim(after) =~= v);
    }
}


proof fn lemma_no_char_concat(a: Seq<char>, b: Seq<char>, c: char)
    requires
        !a.contains(c),
        !b.contains(c),
    ensures
        !(a + b).contains(c),
{
    assert forall|i: int| 0 <= i < (a + b).len() implies (a + b)[i] != c by {
        if i < a.len() {
            assert((a + b)[i] == a[i]);
            if a[i] == c {
                assert(a.contains(c));
            }
        } else {
            assert((a + b)[i] == b[i - a.len()]);
            if b[i - a.len()] == c {
                assert(b.contains(c));
            }
        }
    }
}

/// Words joined by a separator hold a character only where a word or the
/// separator does.
proof fn lemma_join_no_char(ws: Seq<Seq<char>>, sep: Seq<char>, c: char)
    requires
        !sep.contains(c),
        forall|i: int| 0 <= i < ws.len() ==> !(#[trigger] ws[i]).contains(c),
    ensures
        !join(ws, sep).contains(c),
    decreases ws.len(),
{
    if ws.len() == 0 {
    } else if ws.len() == 1 {
        assert(!ws[0].contains(c));
    } else {
        let d = ws.drop_last();
        assert forall|i: int| 0 <= i < d.len() implies !(#[trigger] d[i]).contains(c) by {
            assert(d[i] == ws[i]);
        }
        lemma_join_no_char(d, sep, c);
        lemma_no_char_concat(join(d, sep), sep, c);
        assert(!ws[ws.len() - 1].contains(c));
        lemma_no_char_concat(join(d, sep) + sep, ws.last(), c);
    }
}

proof fn lemma_join_front(w: Seq<char>, rest: Seq<Seq<char>>, sep: Seq<char>)
    requires
        rest.len() > 0,
    ensures
        join(seq![w] + rest, sep) == w + sep + join(rest, sep),
    decreases rest.len(),
{
    let all = seq![w] + rest;
    if rest.len() == 1 {
        assert(all.drop_last() =~= seq![w]);
        assert(all.last() == rest[0]);
        assert(join(seq![w], sep) == w);
        assert(join(rest, sep) == rest[0]);
        assert(join(all, sep) == join(all.drop_last(), sep) + sep + all.last());
    } else {
        assert(all.drop_last() =~= seq![w] + rest.drop_last());
        lemma_join_front(w, rest.drop_last(), sep);
        assert(all.last() == rest.last());
        assert(join(all, sep) == join(all.drop_last(), sep) + sep + all.last());
        assert(join(rest, sep) == join(rest.drop_last(), sep) + sep + rest.last());
        assert((w + sep + join(rest.drop_last(), sep)) + sep + rest.last() =~= w + sep + (join(
            rest.drop_last(),
            sep,
        ) + sep + rest.last()));
    }
}

/// Non-empty trimmed words without commas, joined by commas, read back as
/// those words.
proof fn lemma_list_words_join(ws: Seq<Seq<char>>)
    requires
        forall|i: int| 0 <= i < ws.len() ==> (#[trigger] ws[i]).len() > 0 && text::trim(ws[i]) == ws[i]
            && !ws[i].contains(','),
    ensures
        list_words(join(ws, ","@)) == ws,
{
    lemma_split_join(ws);
    reveal(Seq::filter);
    if ws.len() == 0 {
        assert(text::split(join(ws, ","@), ',') == seq![Seq::<char>::empty()]);
        assert(trim_each(seq![Seq::<char>::empty()]) =~= seq![Seq::<char>::empty()]);
        Seq::<Seq<char>>::empty().lemma_filter_push(Seq::<char>::empty(), nonempty_pred());
        assert(seq![Seq::<char>::empty()] =~= Seq::<Seq<char>>::empty().push(Seq::<char>::empty()));
        assert(Seq::<Seq<char>>::empty().filter(nonempty_pred()) =~= Seq::<Seq<char>>::empty());
    } else {
        assert(trim_each(ws) =~= ws);
        lemma_filter_all(ws);
    }
}

proof fn lemma_filter_all(ws: Seq<Seq<char>>)
    requires
        forall|i: int| 0 <= i < ws.len() ==> (#[trigger] ws[i]).len() > 0,
    ensures
        ws.filter(nonempty_pred()) == ws,
    decreases ws.len(),
{
    if ws.len() == 0 {
        reveal(Seq::filter);
        assert(ws.filter(nonempty_pred()) =~= ws);
    } else {
        let d = ws.drop_last();
        assert forall|i: int| 0 <= i < d.len() implies (#[trigger] d[i]).len() > 0 by {
            assert(d[i] == ws[i]);
        }
        lemma_filter_all(d);
        d.lemma_filter_push(ws.last(), nonempty_pred());
        assert(d.push(ws.last()) =~= ws);
    }
}

proof fn lemma_split_join(ws: Seq<Seq<char>>)
    requires
        forall|i: int| 0 <= i < ws.len() ==> !(#[trigger] ws[i]).contains(','),
    ensures
        ws.len() > 0 ==> text::split(join(ws, ","@), ',') == ws,
        ws.len() == 0 ==> text::split(join(ws, ","@), ',') == seq![Seq::<char>::empty()],
    decreases ws.len(),
{
    reveal_strlit(",");
    assert(","@ =~= seq![',']);
    if ws.len() == 0 {
        assert(!Seq::<char>::empty().contains(','));
        text::lemma_split_absent(Seq::<char>::empty(), ',');
    } else if ws.len() == 1 {
        assert(!ws[0].contains(','));
        text::lemma_split_absent(ws[0], ',');
        assert(seq![ws[0]] =~= ws);
    } else {
        let rest = ws.drop_first();
        assert forall|i: int| 0 <= i < rest.len() implies !(#[trigger] rest[i]).contains(',') by {
            assert(rest[i] == ws[i + 1]);
        }
        lemma_split_join(rest);
        assert(ws =~= seq![ws[0]] + rest);
        lemma_join_front(ws[0], rest, ","@);
        assert(!ws[0].contains(','));
        text::lemma_split_first(ws[0], ',', join(rest, ","@));
    }
}


/// The keys the reader knows.
pub open spec fn known_key(k: Seq<char>) -> bool {
    ||| k == "version"@
    ||| k == "theme"@
    ||| k == "enabled_sources"@
    ||| k == "show_packages"@
    ||| k == "aur_helper"@
    ||| k == "flatpak_scope"@
    ||| k == "check_updates_on_start"@
    ||| k == "self_update_check"@
    ||| k == "update_check_minutes"@
    ||| k == "split"@
}

/// A key the writer can write and the reader read back as that key.
pub open spec fn key_writable(k: Seq<char>) -> bool {
    &&& k.len() > 0
    &&& text::trim(k) == k
    &&& k[0] != '#'
    &&& !k.contains('=')
    &&& !k.contains('\n')
}

/// A value the writer can write and the reader read back as that value.
pub open spec fn value_writable(v: Seq<char>) -> bool {
    text::trim(v) == v && !v.contains('\n')
}

proof fn lemma_literal_writable(k: Seq<char>)
    requires
        k.len() > 0,
        forall|i: int| 0 <= i < k.len() ==> 'a' <= #[trigger] k[i] <= 'z' || k[i] == '_',
    ensures
        key_writable(k),
        value_writable(k),
        text::lower_all(k) == k,
{
    lemma_trim_fixed(k);
    assert(!k.contains('='));
    assert(!k.contains('\n'));
    assert(text::lower_all(k) =~= k);
}

proof fn lemma_keys()
    ensures
        key_writable("version"@),
        key_writable("theme"@),
        key_writable("enabled_sources"@),
        key_writable("show_packages"@),
        key_writable("aur_helper"@),
        key_writable("flatpak_scope"@),
        key_writable("check_updates_on_start"@),
        key_writable("self_update_check"@),
        key_writable("update_check_minutes"@),
        key_writable("split"@),
        "version"@ != "theme"@ && "version"@ != "enabled_sources"@ && "version"@ != "show_packages"@
            && "version"@ != "aur_helper"@ && "version"@ != "flatpak_scope"@ && "version"@
            != "check_updates_on_start"@ && "version"@ != "self_update_check"@ && "version"@
            != "update_check_minutes"@ && "version"@ != "split"@,
        "theme"@ != "enabled_sources"@ && "theme"@ != "show_packages"@ && "theme"@ != "aur_helper"@
            && "theme"@ != "flatpak_scope"@ && "theme"@ != "check_updates_on_start"@ && "theme"@
            != "self_update_check"@ && "theme"@ != "update_check_minutes"@ && "theme"@ != "split"@,
        "enabled_sources"@ != "show_packages"@ && "enabled_sources"@ != "aur_helper"@
            && "enabled_sources"@ != "flatpak_scope"@ && "enabled_sources"@
            != "check_updates_on_start"@ && "enabled_sources"@ != "self_update_check"@
            && "enabled_sources"@ != "update_check_minutes"@ && "enabled_sources"@ != "split"@,
        "show_packages"@ != "aur_helper"@ && "show_packages"@ != "flatpak_scope"@ && "show_packages"@
            != "check_updates_on_start"@ && "show_packages"@ != "self_update_check"@
            && "show_packages"@ != "update_check_minutes"@ && "show_packages"@ != "split"@,
        "aur_helper"@ != "flatpak_scope"@ && "aur_helper"@ != "check_updates_on_start"@
            && "aur_helper"@ != "self_update_check"@ && "aur_helper"@ != "update_check_minutes"@
            && "aur_helper"@ != "split"@,
        "flatpak_scope"@ != "check_updates_on_start"@ && "flatpak_scope"@ != "self_update_check"@
            && "flatpak_scope"@ != "update_check_minutes"@ && "flatpak_scope"@ != "split"@,
        "check_updates_on_start"@ != "self_update_check"@ && "check_updates_on_start"@
            != "update_check_minutes"@ && "check_updates_on_start"@ != "split"@,
        "self_update_check"@ != "update_check_minutes"@ && "self_update_check"@ != "split"@,
        "update_check_minutes"@ != "split"@,
{
    reveal_strlit("version");
    reveal_strlit("theme");
    reveal_strlit("enabled_sources");
    reveal_strlit("show_packages");
    reveal_strlit("aur_helper");
    reveal_strlit("flatpak_scope");
    reveal_strlit("check_updates_on_start");
    reveal_strlit("self_update_check");
    reveal_strlit("update_check_minutes");
    reveal_strlit("split");
    lemma_literal_writable("version"@);
    lemma_literal_writable("theme"@);
    lemma_literal_writable("enabled_sources"@);
    lemma_literal_writable("show_packages"@);
    lemma_literal_writable("aur_helper"@);
    lemma_literal_writable("flatpak_scope"@);
    lemma_literal_writable("check_updates_on_start"@);
    lemma_literal_writable("self_update_check"@);
    lemma_literal_writable("update_check_minutes"@);
    lemma_literal_writable("split"@);
}

proof fn lemma_words()
    ensures
        value_writable("1"@) && value_writable("true"@) && value_writable("false"@),
        flag_spec("true"@, false) && flag_spec("true"@, true),
        !flag_spec("false"@, false) && !flag_spec("false"@, true),
        forall|t: Theme| value_writable(#[trigger] theme_id(t)) && theme_of(text::lower_all(theme_id(t))) == Some(t),
        forall|h: AurHelper| value_writable(#[trigger] helper_id(h)) && helper_of(text::lower_all(helper_id(h))) == Some(h),
        forall|f: FlatpakScope| value_writable(#[trigger] scope_id(f)) && scope_of(text::lower_all(scope_id(f))) == Some(f),
        forall|k: SourceKind| #[trigger] model::kind_id(k).len() > 0 && text::trim(model::kind_id(k)) == model::kind_id(k)
            && !model::kind_id(k).contains(',') && !model::kind_id(k).contains('\n') && text::lower_all(model::kind_id(k)) == model::kind_id(k),
{
    reveal_strlit("1");
    lemma_trim_fixed("1"@);
    assert(!"1"@.contains('\n'));
    reveal_strlit("true");
    reveal_strlit("false");
    reveal_strlit("yes");
    reveal_strlit("on");
    reveal_strlit("no");
    reveal_strlit("off");
    reveal_strlit("0");
    lemma_literal_writable("true"@);
    lemma_literal_writable("false"@);
    reveal_strlit("dark");
    reveal_strlit("light");
    reveal_strlit("system");
    lemma_literal_writable("dark"@);
    lemma_literal_writable("light"@);
    lemma_literal_writable("system"@);
    reveal_strlit("auto");
    reveal_strlit("paru");
    reveal_strlit("yay");
    reveal_strlit("builtin");
    lemma_literal_writable("auto"@);
    lemma_literal_writable("paru"@);
    lemma_literal_writable("yay"@);
    lemma_literal_writable("builtin"@);
    reveal_strlit("user");
    lemma_literal_writable("user"@);
    reveal_strlit("pacman");
    reveal_strlit("aur");
    reveal_strlit("flatpak");
    reveal_strlit("snap");
    reveal_strlit("apt");
    reveal_strlit("dnf");
    reveal_strlit("github");
    reveal_strlit("fwupd");
    reveal_strlit("chwd");
    lemma_literal_writable("pacman"@);
    lemma_literal_writable("aur"@);
    lemma_literal_writable("flatpak"@);
    lemma_literal_writable("snap"@);
    lemma_literal_writable("apt"@);
    lemma_literal_writable("dnf"@);
    lemma_literal_writable("github"@);
    lemma_literal_writable("fwupd"@);
    lemma_literal_writable("chwd"@);
    assert forall|k: SourceKind| #[trigger] model::kind_id(k).len() > 0 && text::trim(model::kind_id(k)) == model::kind_id(k)
        && !model::kind_id(k).contains(',') && !model::kind_id(k).contains('\n') && text::lower_all(model::kind_id(k)) == model::kind_id(k) by {
        let id = model::kind_id(k);
        assert(forall|i: int| 0 <= i < id.len() ==> 'a' <= #[trigger] id[i] <= 'z');
        assert(!id.contains(','));
    }
}

pub open spec fn member_of(es: Seq<SourceKind>) -> spec_fn(SourceKind) -> bool {
    |k: SourceKind| es.contains(k)
}

/// Sources in interface order, each once: what the reader makes of any
/// list.
pub open spec fn in_interface_order(es: Seq<SourceKind>) -> bool {
    es == model::all_kinds().filter(member_of(es))
}

proof fn lemma_sources_read_back(es: Seq<SourceKind>)
    requires
        in_interface_order(es),
    ensures
        sources_of(join(source_ids(es), ","@)) == Some(es),
        value_writable(join(source_ids(es), ","@)),
{
    lemma_words();
    let ids = source_ids(es);
    assert forall|i: int| 0 <= i < ids.len() implies (#[trigger] ids[i]).len() > 0 && text::trim(ids[i]) == ids[i]
        && !ids[i].contains(',') && !ids[i].contains('\n') by {
        assert(ids[i] == model::kind_id(es[i]));
    }
    lemma_list_words_join(ids);
    reveal_strlit(",");
    assert(!","@.contains('\n'));
    lemma_join_no_char(ids, ","@, '\n');
    let j = join(ids, ","@);
    assert forall|i: int| 0 <= i < ids.len() implies (#[trigger] ids[i]).len() > 0 && !text::is_space(ids[i][0])
        && !text::is_space(ids[i].last()) by {
        lemma_trimmed_ends(ids[i]);
    }
    lemma_join_ends(ids, ","@);
    lemma_trim_fixed(j);
    if es.len() > 0 {
        assert(named_pred(ids) =~= member_of(es)) by {
            assert forall|k: SourceKind| #[trigger] named_pred(ids)(k) == member_of(es)(k) by {
                if named_by(ids, k) {
                    let i = choose|i: int| 0 <= i < ids.len() && model::kind_of_id(text::lower_all(#[trigger] ids[i])) == Some(k);
                    assert(ids[i] == model::kind_id(es[i]));
                    model::lemma_kind_id_parses_back(es[i]);
                    assert(es[i] == k);
                }
                if es.contains(k) {
                    let i = choose|i: int| 0 <= i < es.len() && es[i] == k;
                    assert(ids[i] == model::kind_id(k));
                    model::lemma_kind_id_parses_back(k);
                    assert(model::kind_of_id(text::lower_all(ids[i])) == Some(k));
                }
            }
        }
        assert(ids.len() > 0);
    } else {
        assert(ids =~= Seq::<Seq<char>>::empty());
    }
}

/// Joined words start and end as their first and last words do.
proof fn lemma_join_ends(ws: Seq<Seq<char>>, sep: Seq<char>)
    requires
        forall|i: int| 0 <= i < ws.len() ==> (#[trigger] ws[i]).len() > 0 && !text::is_space(ws[i][0])
            && !text::is_space(ws[i].last()),
    ensures
        join(ws, sep).len() > 0 ==> !text::is_space(join(ws, sep)[0]) && !text::is_space(join(ws, sep).last()),
    decreases ws.len(),
{
    if ws.len() > 1 {
        let d = ws.drop_last();
        assert forall|i: int| 0 <= i < d.len() implies (#[trigger] d[i]).len() > 0 && !text::is_space(d[i][0])
            && !text::is_space(d[i].last()) by {
            assert(d[i] == ws[i]);
        }
        lemma_join_ends(d, sep);
        assert(ws[0].len() > 0);
        let j = join(ws, sep);
        assert(j == join(d, sep) + sep + ws.last());
        assert(join(d, sep).len() > 0) by {
            lemma_join_len(d, sep);
        }
        assert(j[0] == join(d, sep)[0]);
        assert(ws[ws.len() - 1].len() > 0);
        assert(j.last() == ws.last().last());
    } else if ws.len() == 1 {
        assert(ws[0].len() > 0);
    }
}

proof fn lemma_join_len(ws: Seq<Seq<char>>, sep: Seq<char>)
    requires
        ws.len() > 0,
        ws[0].len() > 0,
    ensures
        join(ws, sep).len() > 0,
    decreases ws.len(),
{
    if ws.len() > 1 {
        lemma_join_len(ws.drop_last(), sep);
    }
}


/// A split entry the writer can write and the reader keep.
pub open spec fn split_entry_writable(e: Seq<char>) -> bool {
    split_entry_ok(e) && text::trim(e) == e && !e.contains(',') && !e.contains('\n')
}

pub open spec fn no_repeats(s: Seq<Seq<char>>) -> bool {
    forall|i: int, j: int| 0 <= i < j < s.len() ==> s[i] != s[j]
}

proof fn lemma_keep_all(kept: Seq<Seq<char>>, es: Seq<Seq<char>>)
    requires
        forall|i: int| 0 <= i < es.len() ==> split_entry_ok(#[trigger] es[i]),
        no_repeats(es),
        forall|i: int| 0 <= i < es.len() ==> !kept.contains(#[trigger] es[i]),
    ensures
        keep_split(kept, es) == kept + es,
    decreases es.len(),
{
    if es.len() == 0 {
        assert(kept + es =~= kept);
    } else {
        let e = es[0];
        let rest = es.drop_first();
        let next = kept.push(e);
        assert(split_entry_ok(e));
        assert(!kept.contains(e));
        assert forall|i: int| 0 <= i < rest.len() implies split_entry_ok(#[trigger] rest[i]) by {
            assert(rest[i] == es[i + 1]);
        }
        assert forall|i: int, j: int| 0 <= i < j < rest.len() implies rest[i] != rest[j] by {
            assert(rest[i] == es[i + 1] && rest[j] == es[j + 1]);
        }
        assert forall|i: int| 0 <= i < rest.len() implies !next.contains(#[trigger] rest[i]) by {
            assert(rest[i] == es[i + 1]);
            assert(es[0] != es[i + 1]);
            if next.contains(rest[i]) {
                let k = choose|k: int| 0 <= k < next.len() && next[k] == rest[i];
                if k < kept.len() {
                    assert(kept[k] == rest[i]);
                    assert(kept.contains(es[i + 1]));
                }
            }
        }
        lemma_keep_all(next, rest);
        assert(next + rest =~= kept + es);
    }
}

proof fn lemma_split_read_back(sp: Seq<Seq<char>>)
    requires
        forall|i: int| 0 <= i < sp.len() ==> split_entry_writable(#[trigger] sp[i]),
        no_repeats(sp),
    ensures
        split_of(join(sp, ","@)) == sp,
        value_writable(join(sp, ","@)),
{
    assert forall|i: int| 0 <= i < sp.len() implies (#[trigger] sp[i]).len() > 0 && text::trim(sp[i]) == sp[i]
        && !sp[i].contains(',') by {
        assert(split_entry_writable(sp[i]));
        text::lemma_find(sp[i], ':');
    }
    lemma_list_words_join(sp);
    assert forall|i: int| 0 <= i < sp.len() implies split_entry_ok(#[trigger] sp[i]) by {
        assert(split_entry_writable(sp[i]));
    }
    assert forall|i: int| 0 <= i < sp.len() implies !Seq::<Seq<char>>::empty().contains(#[trigger] sp[i]) by {}
    lemma_keep_all(Seq::empty(), sp);
    assert(Seq::<Seq<char>>::empty() + sp =~= sp);
    reveal_strlit(",");
    assert(!","@.contains('\n'));
    assert forall|i: int| 0 <= i < sp.len() implies !(#[trigger] sp[i]).contains('\n') by {
        assert(split_entry_writable(sp[i]));
    }
    lemma_join_no_char(sp, ","@, '\n');
    assert forall|i: int| 0 <= i < sp.len() implies (#[trigger] sp[i]).len() > 0 && !text::is_space(sp[i][0])
        && !text::is_space(sp[i].last()) by {
        assert(split_entry_writable(sp[i]));
        text::lemma_find(sp[i], ':');
        lemma_trimmed_ends(sp[i]);
    }
    lemma_join_ends(sp, ","@);
    lemma_trim_fixed(join(sp, ","@));
}

proof fn lemma_minutes_read_back(m: u32)
    ensures
        text::parse_unsigned(text::decimal(m as nat), u32::MAX as nat) == Some(m as nat),
        value_writable(text::decimal(m as nat)),
{
    let d = text::decimal(m as nat);
    text::lemma_decimal_reads_back(m as nat);
    assert(text::unsigned_body(d) == d);
    assert(text::is_digit(d[d.len() - 1]));
    lemma_trim_fixed(d);
    assert(!d.contains('\n')) by {
        if d.contains('\n') {
            let i = choose|i: int| 0 <= i < d.len() && d[i] == '\n';
            assert(text::is_digit(d[i]));
        }
    }
}

proof fn lemma_apply_lines_append(st: SettingsView, a: Seq<Seq<char>>, b: Seq<Seq<char>>)
    ensures
        apply_lines(st, a + b) == apply_lines(apply_lines(st, a), b),
    decreases a.len(),
{
    if a.len() == 0 {
        assert(a + b =~= b);
    } else {
        assert((a + b).drop_first() =~= a.drop_first() + b);
        assert((a + b)[0] == a[0]);
        lemma_apply_lines_append(apply_line(st, a[0]), a.drop_first(), b);
    }
}

proof fn lemma_apply_lines_one(st: SettingsView, l: Seq<char>)
    ensures
        apply_lines(st, seq![l]) == apply_line(st, l),
{
    reveal_with_fuel(apply_lines, 2);
    assert(seq![l].drop_first() =~= Seq::<Seq<char>>::empty());
    assert(seq![l][0] == l);
}

proof fn lemma_apply_lines_push(st: SettingsView, ls: Seq<Seq<char>>, l: Seq<char>)
    ensures
        apply_lines(st, ls.push(l)) == apply_line(apply_lines(st, ls), l),
{
    assert(ls.push(l) =~= ls + seq![l]);
    lemma_apply_lines_append(st, ls, seq![l]);
    lemma_apply_lines_one(apply_lines(st, ls), l);
}

proof fn lemma_kv_line_no_newline(k: Seq<char>, v: Seq<char>)
    requires
        !k.contains('\n'),
        !v.contains('\n'),
    ensures
        !kv_line(k, v).contains('\n'),
{
    reveal_strlit(" = ");
    assert(!" = "@.contains('\n'));
    lemma_no_char_concat(k, " = "@, '\n');
    lemma_no_char_concat(k + " = "@, v, '\n');
}

/// An unknown key and its value, written and read back, are kept.
pub open spec fn unknown_writable(p: (Seq<char>, Seq<char>)) -> bool {
    key_writable(p.0) && !known_key(p.0) && value_writable(p.1)
}

proof fn lemma_unknown_read_back(st: SettingsView, u: Seq<(Seq<char>, Seq<char>)>)
    requires
        forall|i: int| 0 <= i < u.len() ==> unknown_writable(#[trigger] u[i]),
    ensures
        apply_lines(st, unknown_kv_lines(u)) == (SettingsView { unknown: st.unknown + u, ..st }),
    decreases u.len(),
{
    if u.len() == 0 {
        assert(unknown_kv_lines(u) =~= Seq::<Seq<char>>::empty());
        assert(st.unknown + u =~= st.unknown);
    } else {
        let d = u.drop_last();
        assert forall|i: int| 0 <= i < d.len() implies unknown_writable(#[trigger] d[i]) by {
            assert(d[i] == u[i]);
        }
        lemma_unknown_read_back(st, d);
        let p = u.last();
        assert(unknown_writable(u[u.len() - 1]));
        assert(unknown_kv_lines(u) =~= unknown_kv_lines(d) + seq![kv_line(p.0, p.1)]);
        lemma_apply_lines_append(st, unknown_kv_lines(d), seq![kv_line(p.0, p.1)]);
        let mid = SettingsView { unknown: st.unknown + d, ..st };
        lemma_apply_lines_one(mid, kv_line(p.0, p.1));
        lemma_apply_line_kv(mid, p.0, p.1);
        assert(st.unknown + d + seq![p] =~= st.unknown + u);
        assert((st.unknown + d).push(p) =~= st.unknown + u);
    }
}

/// Settings the writer can write so the reader reads them back whole: a
/// figure within its range (the reader clamps), sources in interface order
/// once each (the reader puts them so), split entries that can match,
/// once each, and unknown lines with keys the reader does not know; no
/// text with a newline in it.
pub open spec fn settings_writable(s: SettingsView) -> bool {
    &&& 5 <= s.update_check_minutes <= 10080
    &&& in_interface_order(s.enabled_sources)
    &&& forall|i: int| 0 <= i < s.split.len() ==> split_entry_writable(#[trigger] s.split[i])
    &&& no_repeats(s.split)
    &&& forall|i: int| 0 <= i < s.unknown.len() ==> unknown_writable(#[trigger] s.unknown[i])
}

proof fn lemma_line_version(st: SettingsView, s: SettingsView)
    requires
        settings_writable(s),
    ensures
        apply_line(st, kv_line("version"@, "1"@)) == st,
{
    lemma_keys();
    lemma_words();
    lemma_apply_line_kv(st, "version"@, "1"@);
}

proof fn lemma_line_theme(st: SettingsView, s: SettingsView)
    requires
        settings_writable(s),
    ensures
        apply_line(st, kv_line("theme"@, theme_id(s.theme))) == (SettingsView { theme: s.theme, ..st }),
{
    lemma_keys();
    lemma_words();
    lemma_apply_line_kv(st, "theme"@, theme_id(s.theme));
}

proof fn lemma_line_enabled_sources(st: SettingsView, s: SettingsView)
    requires
        settings_writable(s),
    ensures
        apply_line(st, kv_line("enabled_sources"@, join(source_ids(s.enabled_sources), ","@))) == (SettingsView { enabled_sources: s.enabled_sources, ..st }),
{
    lemma_keys();
    lemma_words();
        lemma_sources_read_back(s.enabled_sources);
    lemma_apply_line_kv(st, "enabled_sources"@, join(source_ids(s.enabled_sources), ","@));
}

proof fn lemma_line_show_packages(st: SettingsView, s: SettingsView)
    requires
        settings_writable(s),
    ensures
        apply_line(st, kv_line("show_packages"@, bool_text(s.show_packages))) == (SettingsView { show_packages: s.show_packages, ..st }),
{
    lemma_keys();
    lemma_words();
    lemma_apply_line_kv(st, "show_packages"@, bool_text(s.show_packages));
}

proof fn lemma_line_aur_helper(st: SettingsView, s: SettingsView)
    requires
        settings_writable(s),
    ensures
        apply_line(st, kv_line("aur_helper"@, helper_id(s.aur_helper))) == (SettingsView { aur_helper: s.aur_helper, ..st }),
{
    lemma_keys();
    lemma_words();
    lemma_apply_line_kv(st, "aur_helper"@, helper_id(s.aur_helper));
}

proof fn lemma_line_flatpak_scope(st: SettingsView, s: SettingsView)
    requires
        settings_writable(s),
    ensures
        apply_line(st, kv_line("flatpak_scope"@, scope_id(s.flatpak_scope))) == (SettingsView { flatpak_scope: s.flatpak_scope, ..st }),
{
    lemma_keys();
    lemma_words();
    lemma_apply_line_kv(st, "flatpak_scope"@, scope_id(s.flatpak_scope));
}

proof fn lemma_line_check_updates_on_start(st: SettingsView, s: SettingsView)
    requires
        settings_writable(s),
    ensures
        apply_line(st, kv_line("check_updates_on_start"@, bool_text(s.check_updates_on_start))) == (SettingsView { check_updates_on_start: s.check_updates_on_start, ..st }),
{
    lemma_keys();
    lemma_words();
    lemma_apply_line_kv(st, "check_updates_on_start"@, bool_text(s.check_updates_on_start));
}

proof fn lemma_line_self_update_check(st: SettingsView, s: SettingsView)
    requires
        settings_writable(s),
    ensures
        apply_line(st, kv_line("self_update_check"@, bool_text(s.self_update_check))) == (SettingsView { self_update_check: s.self_update_check, ..st }),
{
    lemma_keys();
    lemma_words();
    lemma_apply_line_kv(st, "self_update_check"@, bool_text(s.self_update_check));
}

proof fn lemma_line_update_check_minutes(st: SettingsView, s: SettingsView)
    requires
        settings_writable(s),
    ensures
        apply_line(st, kv_line("update_check_minutes"@, text::decimal(s.update_check_minutes as nat))) == (SettingsView { update_check_minutes: s.update_check_minutes, ..st }),
{
    lemma_keys();
    lemma_words();
        lemma_minutes_read_back(s.update_check_minutes);
    lemma_apply_line_kv(st, "update_check_minutes"@, text::decimal(s.update_check_minutes as nat));
}

proof fn lemma_line_split(st: SettingsView, s: SettingsView)
    requires
        settings_writable(s),
    ensures
        apply_line(st, kv_line("split"@, join(s.split, ","@))) == (SettingsView { split: s.split, ..st }),
{
    lemma_keys();
    lemma_words();
        lemma_split_read_back(s.split);
    lemma_apply_line_kv(st, "split"@, join(s.split, ","@));
}

/// The lines of the known keys, in the writer's order.
pub open spec fn head_lines(s: SettingsView) -> Seq<Seq<char>> {
    render_lines(s).take(10)
}

#[verifier::rlimit(40)]
proof fn lemma_known_lines(s: SettingsView)
    requires
        settings_writable(s),
    ensures
        apply_lines(default_view(), head_lines(s)) == (SettingsView { unknown: Seq::empty(), ..s }),
{
    let h = head_lines(s);
    let st0 = default_view();
    assert(h.take(0) =~= Seq::<Seq<char>>::empty());
    lemma_line_version(st0, s);
    lemma_apply_lines_push(st0, h.take(0), h[0]);
    assert(h.take(1) =~= h.take(0).push(h[0]));
    let st1 = st0;
    lemma_line_theme(st1, s);
    lemma_apply_lines_push(st0, h.take(1), h[1]);
    assert(h.take(2) =~= h.take(1).push(h[1]));
    let st2 = SettingsView { theme: s.theme, ..st1 };
    lemma_line_enabled_sources(st2, s);
    lemma_apply_lines_push(st0, h.take(2), h[2]);
    assert(h.take(3) =~= h.take(2).push(h[2]));
    let st3 = SettingsView { enabled_sources: s.enabled_sources, ..st2 };
    lemma_line_show_packages(st3, s);
    lemma_apply_lines_push(st0, h.take(3), h[3]);
    assert(h.take(4) =~= h.take(3).push(h[3]));
    let st4 = SettingsView { show_packages: s.show_packages, ..st3 };
    lemma_line_aur_helper(st4, s);
    lemma_apply_lines_push(st0, h.take(4), h[4]);
    assert(h.take(5) =~= h.take(4).push(h[4]));
    let st5 = SettingsView { aur_helper: s.aur_helper, ..st4 };
    lemma_line_flatpak_scope(st5, s);
    lemma_apply_lines_push(st0, h.take(5), h[5]);
    assert(h.take(6) =~= h.take(5).push(h[5]));
    let st6 = SettingsView { flatpak_scope: s.flatpak_scope, ..st5 };
    lemma_line_check_updates_on_start(st6, s);
    lemma_apply_lines_push(st0, h.take(6), h[6]);
    assert(h.take(7) =~= h.take(6).push(h[6]));
    let st7 = SettingsView { check_updates_on_start: s.check_updates_on_start, ..st6 };
    lemma_line_self_update_check(st7, s);
    lemma_apply_lines_push(st0, h.take(7), h[7]);
    assert(h.take(8) =~= h.take(7).push(h[7]));
    let st8 = SettingsView { self_update_check: s.self_update_check, ..st7 };
    lemma_line_update_check_minutes(st8, s);
    lemma_apply_lines_push(st0, h.take(8), h[8]);
    assert(h.take(9) =~= h.take(8).push(h[8]));
    let st9 = SettingsView { update_check_minutes: s.update_check_minutes, ..st8 };
    lemma_line_split(st9, s);
    lemma_apply_lines_push(st0, h.take(9), h[9]);
    assert(h.take(10) =~= h.take(9).push(h[9]));
    assert(h.take(10) =~= h);
}

proof fn lemma_lines_have_no_newline(s: SettingsView)
    requires
        settings_writable(s),
    ensures
        forall|i: int| 0 <= i < render_lines(s).len() ==> !(#[trigger] render_lines(s)[i]).contains('\n'),
{
    lemma_keys();
    lemma_words();
    lemma_sources_read_back(s.enabled_sources);
    lemma_split_read_back(s.split);
    lemma_minutes_read_back(s.update_check_minutes);
    let all = render_lines(s);
    let u = unknown_kv_lines(s.unknown);
    assert forall|i: int| 0 <= i < all.len() implies !(#[trigger] all[i]).contains('\n') by {
        if i >= 10 {
            assert(all[i] == u[i - 10]);
            assert(unknown_writable(s.unknown[i - 10]));
            lemma_kv_line_no_newline(s.unknown[i - 10].0, s.unknown[i - 10].1);
        } else if i == 0 {
            lemma_kv_line_no_newline("version"@, "1"@);
        } else if i == 1 {
            lemma_kv_line_no_newline("theme"@, theme_id(s.theme));
        } else if i == 2 {
            lemma_kv_line_no_newline("enabled_sources"@, join(source_ids(s.enabled_sources), ","@));
        } else if i == 3 {
            lemma_kv_line_no_newline("show_packages"@, bool_text(s.show_packages));
        } else if i == 4 {
            lemma_kv_line_no_newline("aur_helper"@, helper_id(s.aur_helper));
        } else if i == 5 {
            lemma_kv_line_no_newline("flatpak_scope"@, scope_id(s.flatpak_scope));
        } else if i == 6 {
            lemma_kv_line_no_newline("check_updates_on_start"@, bool_text(s.check_updates_on_start));
        } else if i == 7 {
            lemma_kv_line_no_newline("self_update_check"@, bool_text(s.self_update_check));
        } else if i == 8 {
            lemma_kv_line_no_newline("update_check_minutes"@, text::decimal(s.update_check_minutes as nat));
        } else {
            lemma_kv_line_no_newline("split"@, join(s.split, ","@));
        }
    }
}

/// What the writer writes, the reader reads back as it was: reading the
/// rendered text of any settings it can write gives those settings.
pub proof fn lemma_settings_round_trip(s: SettingsView)
    requires
        settings_writable(s),
    ensures
        parse_spec(render_spec(s)) == s,
{
    lemma_lines_have_no_newline(s);
    lemma_lines_of_joined(render_lines(s));
    lemma_apply_lines_strip(default_view(), render_lines(s));
    assert(parse_spec(render_spec(s)) == apply_lines(default_view(), render_lines(s)));
    let u = unknown_kv_lines(s.unknown);
    assert(render_lines(s) =~= head_lines(s) + u);
    lemma_apply_lines_append(default_view(), head_lines(s), u);
    lemma_known_lines(s);
    let known = SettingsView { unknown: Seq::empty(), ..s };
    lemma_unknown_read_back(known, s.unknown);
    assert(known.unknown + s.unknown =~= s.unknown);
}

/// A value that does not parse changes nothing: the key keeps what it had
/// (its default, in a file that sets it once) and nothing else is lost.
pub proof fn lemma_unparsable_value_changes_nothing(s: SettingsView, key: Seq<char>, value: Seq<char>)
    requires
        (key == "theme"@ && theme_of(text::lower_all(value)) is None) || (key == "enabled_sources"@ && sources_of(
            value,
        ) is None) || (key == "aur_helper"@ && helper_of(text::lower_all(value)) is None) || (key
            == "flatpak_scope"@ && scope_of(text::lower_all(value)) is None) || (key == "update_check_minutes"@
            && text::parse_unsigned(value, u32::MAX as nat) is None) || key == "version"@,
    ensures
        apply_kv(s, key, value) == s,
{
    reveal_strlit("version");
    reveal_strlit("theme");
    reveal_strlit("enabled_sources");
    reveal_strlit("show_packages");
    reveal_strlit("aur_helper");
    reveal_strlit("flatpak_scope");
    reveal_strlit("check_updates_on_start");
    reveal_strlit("self_update_check");
    reveal_strlit("update_check_minutes");
    if key == "theme"@ {
        assert(key.len() == 5);
        assert(apply_kv(s, key, value) == s);
    } else if key == "enabled_sources"@ {
        assert(key.len() == 15);
        assert(apply_kv(s, key, value) == s);
    } else if key == "aur_helper"@ {
        assert(key.len() == 10);
        assert(apply_kv(s, key, value) == s);
    } else if key == "flatpak_scope"@ {
        assert(key.len() == 13 && key[0] == 'f');
        assert("show_packages"@[0] == 's');
        assert(apply_kv(s, key, value) == s);
    } else if key == "update_check_minutes"@ {
        assert(key.len() == 20);
        assert(apply_kv(s, key, value) == s);
    }
}

/// Unknown keys are kept, in the order they are read, with their values.
pub proof fn lemma_unknown_keys_are_kept(s: SettingsView, key: Seq<char>, value: Seq<char>)
    requires
        !known_key(key),
    ensures
        apply_kv(s, key, value) == (SettingsView { unknown: s.unknown.push((key, value)), ..s }),
{
}

} // verus!
