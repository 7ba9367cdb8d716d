//! pacman's databases, read directly.
//!
//! A `desc` file is a sequence of `%KEY%` lines each followed by its values,
//! blank-line separated. That is the whole format; reading it here rather
//! than through libalpm is what lets one binary run on every distribution.

use vstd::prelude::*;
use crate::text;
use crate::allow::join_path;
use crate::model::strings_view;

verus! {

/// One `desc` file: each key as written (`NAME`, `VERSION`, ...) with its
/// values, keys in the order they first appear, each once.
#[derive(Clone, Debug, PartialEq, Eq)]
pub struct Desc {
    pub fields: Vec<(String, Vec<String>)>,
}

pub open spec fn entries_view(v: Seq<(String, Vec<String>)>) -> Seq<(Seq<char>, Seq<Seq<char>>)> {
    v.map_values(|e: (String, Vec<String>)| (e.0@, strings_view(e.1@)))
}

/// Where the first entry for `key` stands.
pub open spec fn index_of(e: Seq<(Seq<char>, Seq<Seq<char>>)>, key: Seq<char>) -> Option<int>
    decreases e.len(),
{
    if e.len() == 0 {
        None
    } else if e[0].0 == key {
        Some(0)
    } else {
        match index_of(e.drop_first(), key) {
            Some(i) => Some(i + 1),
            None => None,
        }
    }
}

/// The values of `key`, where the key occurs.
pub open spec fn lookup(e: Seq<(Seq<char>, Seq<Seq<char>>)>, key: Seq<char>) -> Option<Seq<Seq<char>>> {
    match index_of(e, key) {
        Some(i) => Some(e[i].1),
        None => None,
    }
}

/// A key line: `%KEY%`, at least two characters.
pub open spec fn key_line(line: Seq<char>) -> bool {
    line.len() >= 2 && line[0] == '%' && line.last() == '%'
}

pub struct DescState {
    pub entries: Seq<(Seq<char>, Seq<Seq<char>>)>,
    pub key: Option<Seq<char>>,
}

/// One line more: a key line opens its key (once); a blank line is
/// skipped; any other line is a value of the open key, and is dropped
/// where no key is open.
pub open spec fn desc_line(st: DescState, line: Seq<char>) -> DescState {
    if key_line(line) {
        let k = line.subrange(1, line.len() - 1);
        DescState {
            entries: if index_of(st.entries, k) is Some {
                st.entries
            } else {
                st.entries.push((k, Seq::empty()))
            },
            key: Some(k),
        }
    } else if line.len() == 0 {
        st
    } else {
        match st.key {
            Some(k) => match index_of(st.entries, k) {
                Some(i) => DescState {
                    entries: st.entries.update(i, (k, st.entries[i].1.push(line))),
                    key: st.key,
                },
                None => st,
            },
            None => st,
        }
    }
}

pub open spec fn desc_lines(st: DescState, lines: Seq<Seq<char>>) -> DescState
    decreases lines.len(),
{
    if lines.len() == 0 {
        st
    } else {
        desc_lines(desc_line(st, lines[0]), lines.drop_first())
    }
}

/// What a `desc` text reads as.
pub open spec fn desc_spec(t: Seq<char>) -> Seq<(Seq<char>, Seq<Seq<char>>)> {
    desc_lines(DescState { entries: Seq::empty(), key: None }, crate::settings::lines_of(t)).entries
}

proof fn lemma_index_of(e: Seq<(Seq<char>, Seq<Seq<char>>)>, key: Seq<char>)
    ensures
        match index_of(e, key) {
            Some(i) => 0 <= i < e.len() && e[i].0 == key && forall|j: int| 0 <= j < i ==> e[j].0 != key,
            None => forall|j: int| 0 <= j < e.len() ==> e[j].0 != key,
        },
    decreases e.len(),
{
    if e.len() > 0 {
        lemma_index_of(e.drop_first(), key);
        assert forall|j: int| 1 <= j < e.len() implies e[j] == e.drop_first()[j - 1] by {}
    }
}

proof fn lemma_index_of_is(e: Seq<(Seq<char>, Seq<Seq<char>>)>, key: Seq<char>, i: int)
    requires
        0 <= i < e.len(),
        e[i].0 == key,
        forall|j: int| 0 <= j < i ==> e[j].0 != key,
    ensures
        index_of(e, key) == Some(i),
{
    lemma_index_of(e, key);
    match index_of(e, key) {
        Some(k) => {
            if k < i {
                assert(e[k].0 != key);
            }
            if i < k {
                assert(e[i].0 != key);
            }
        },
        None => {
            assert(e[i].0 != key);
        },
    }
}

fn find_key(fields: &Vec<(String, Vec<String>)>, key: &[char]) -> (r: Option<usize>)
    ensures
        match r {
            Some(i) => i < fields@.len() && index_of(entries_view(fields@), key@) == Some(i as int),
            None => index_of(entries_view(fields@), key@) is None,
        },
{
    let ghost e = entries_view(fields@);
    let mut i: usize = 0;
    while i < fields.len()
        invariant
            e == entries_view(fields@),
            e.len() == fields@.len(),
            i <= fields@.len(),
            forall|j: int| 0 <= j < i ==> e[j].0 != key@,
        decreases fields@.len() - i,
    {
        assert(e[i as int].0 == fields@[i as int].0@);
        if text::eq_str(key, fields[i].0.as_str()) {
            proof {
                lemma_index_of_is(e, key@, i as int);
            }
            return Some(i);
        }
        i = i + 1;
    }
    proof {
        lemma_index_of(e, key@);
    }
    None
}

pub open spec fn first_of(e: Seq<(Seq<char>, Seq<Seq<char>>)>, key: Seq<char>) -> Option<Seq<char>> {
    match lookup(e, key) {
        Some(v) => if v.len() > 0 {
            Some(v[0])
        } else {
            None
        },
        None => None,
    }
}

/// The key a key line opens.
pub open spec fn key_of(line: Seq<char>) -> Seq<char> {
    line.subrange(1, line.len() - 1)
}

/// Whether some line is the key line `%key%`.
pub open spec fn heads(lines: Seq<Seq<char>>, key: Seq<char>) -> bool {
    exists|i: int| 0 <= i < lines.len() && key_line(lines[i]) && key_of(#[trigger] lines[i]) == key
}

/// The lines that stand under `key`: every line that is neither blank nor
/// a key line and whose nearest key line above it is `%key%`; `open` is the
/// key open before the first line.
pub open spec fn values_under(open: Option<Seq<char>>, lines: Seq<Seq<char>>, key: Seq<char>) -> Seq<Seq<char>>
    decreases lines.len(),
{
    if lines.len() == 0 {
        Seq::empty()
    } else if key_line(lines[0]) {
        values_under(Some(key_of(lines[0])), lines.drop_first(), key)
    } else if lines[0].len() == 0 || open != Some(key) {
        values_under(open, lines.drop_first(), key)
    } else {
        seq![lines[0]] + values_under(open, lines.drop_first(), key)
    }
}

proof fn lemma_index_of_same_keys(e: Seq<(Seq<char>, Seq<Seq<char>>)>, f: Seq<(Seq<char>, Seq<Seq<char>>)>, key: Seq<char>)
    requires
        e.len() == f.len(),
        forall|j: int| 0 <= j < e.len() ==> (#[trigger] e[j]).0 == f[j].0,
    ensures
        index_of(e, key) == index_of(f, key),
{
    lemma_index_of(e, key);
    lemma_index_of(f, key);
    match index_of(e, key) {
        Some(i) => {
            assert forall|j: int| 0 <= j < i implies f[j].0 != key by {
                assert(e[j].0 == f[j].0);
            }
            lemma_index_of_is(f, key, i);
        },
        None => {
            if let Some(i) = index_of(f, key) {
                assert(e[i].0 == f[i].0);
            }
        },
    }
}

proof fn lemma_index_of_push(e: Seq<(Seq<char>, Seq<Seq<char>>)>, x: (Seq<char>, Seq<Seq<char>>), key: Seq<char>)
    ensures
        index_of(e, key) is Some ==> index_of(e.push(x), key) == index_of(e, key),
        index_of(e, key) is None && x.0 == key ==> index_of(e.push(x), key) == Some(e.len() as int),
        index_of(e, key) is None && x.0 != key ==> index_of(e.push(x), key) is None,
{
    lemma_index_of(e, key);
    lemma_index_of(e.push(x), key);
    match index_of(e, key) {
        Some(i) => {
            assert(e.push(x)[i] == e[i]);
            assert forall|j: int| 0 <= j < i implies e.push(x)[j].0 != key by {
                assert(e.push(x)[j] == e[j]);
            }
            lemma_index_of_is(e.push(x), key, i);
        },
        None => {
            if x.0 == key {
                assert forall|j: int| 0 <= j < e.len() implies e.push(x)[j].0 != key by {
                    assert(e.push(x)[j] == e[j]);
                }
                lemma_index_of_is(e.push(x), key, e.len() as int);
            } else {
                if let Some(i) = index_of(e.push(x), key) {
                    if i < e.len() {
                        assert(e.push(x)[i] == e[i]);
                    }
                }
            }
        },
    }
}

/// The state a `desc` text is read in holds every key it opened, once.
pub open spec fn desc_state_ok(st: DescState) -> bool {
    st.key matches Some(c) ==> index_of(st.entries, c) is Some
}

/// Reading these lines from this state gives `key` the values it had and
/// the lines under it; the key appears when some line heads it.
pub open spec fn read_under(st: DescState, lines: Seq<Seq<char>>, key: Seq<char>) -> bool {
    lookup(desc_lines(st, lines).entries, key) == match lookup(st.entries, key) {
        Some(v) => Some(v + values_under(st.key, lines, key)),
        None => if heads(lines, key) {
            Some(values_under(st.key, lines, key))
        } else {
            None
        },
    }
}

proof fn lemma_desc_lines_values(st: DescState, lines: Seq<Seq<char>>, key: Seq<char>)
    requires
        desc_state_ok(st),
    ensures
        read_under(st, lines, key),
    decreases lines.len(),
{
    if lines.len() == 0 {
        assert(!heads(lines, key));
        if let Some(v) = lookup(st.entries, key) {
            assert(v + Seq::<Seq<char>>::empty() =~= v);
        }
        assert(read_under(st, lines, key));
    } else {
        let l = lines[0];
        let rest = lines.drop_first();
        let st2 = desc_line(st, l);
        assert(heads(lines, key) <==> (key_line(l) && key_of(l) == key) || heads(rest, key)) by {
            if heads(rest, key) {
                let i = choose|i: int| 0 <= i < rest.len() && key_line(rest[i]) && key_of(#[trigger] rest[i]) == key;
                assert(lines[i + 1] == rest[i]);
            }
            if heads(lines, key) {
                let i = choose|i: int| 0 <= i < lines.len() && key_line(lines[i]) && key_of(#[trigger] lines[i]) == key;
                if i > 0 {
                    assert(rest[i - 1] == lines[i]);
                }
            }
        }
        if key_line(l) {
            let k = key_of(l);
            lemma_index_of_push(st.entries, (k, Seq::empty()), key);
            lemma_index_of_push(st.entries, (k, Seq::empty()), k);
            lemma_index_of(st.entries, key);
            lemma_index_of(st2.entries, key);
            assert(desc_state_ok(st2));
            lemma_desc_lines_values(st2, rest, key);
            if index_of(st.entries, k) is None && k == key {
                assert(Seq::<Seq<char>>::empty() + values_under(st2.key, rest, key) =~= values_under(st2.key, rest, key));
            }
            assert(read_under(st, lines, key));
        } else if l.len() == 0 {
            lemma_desc_lines_values(st2, rest, key);
            assert(read_under(st, lines, key));
        } else {
            match st.key {
                Some(c) => {
                    let i = index_of(st.entries, c)->Some_0;
                    lemma_index_of(st.entries, c);
                    let e2 = st.entries.update(i, (c, st.entries[i].1.push(l)));
                    assert forall|j: int| 0 <= j < st.entries.len() implies (#[trigger] st.entries[j]).0 == e2[j].0 by {}
                    lemma_index_of_same_keys(st.entries, e2, key);
                    lemma_index_of_same_keys(st.entries, e2, c);
                    assert(st2 == DescState { entries: e2, key: st.key });
                    assert(desc_lines(st, lines) == desc_lines(st2, rest));
                    lemma_index_of(st.entries, key);
                    if let Some(j) = index_of(st.entries, key) {
                        if c != key {
                            assert(e2[j] == st.entries[j]);
                        }
                    }
                    lemma_desc_lines_values(st2, rest, key);
                    if c == key {
                        let v = st.entries[i].1;
                        assert(v.push(l) + values_under(st.key, rest, key) =~= v + (seq![l] + values_under(st.key, rest, key)));
                    }
                    assert(read_under(st, lines, key));
                },
                None => {
                    lemma_desc_lines_values(st2, rest, key);
                    assert(read_under(st, lines, key));
                },
            }
        }
    }
}

/// What a `desc` text says under a key: the key is there when some line is
/// `%key%`, and its values are the lines under every such heading, in
/// order, blank lines left out; lines before the first heading belong to no
/// key.
pub proof fn lemma_desc_values_are_the_lines_under_the_key(text: Seq<char>, key: Seq<char>)
    ensures
        lookup(desc_spec(text), key) == if heads(crate::settings::lines_of(text), key) {
            Some(values_under(None, crate::settings::lines_of(text), key))
        } else {
            None
        },
{
    let st = DescState { entries: Seq::empty(), key: None };
    lemma_index_of(st.entries, key);
    lemma_desc_lines_values(st, crate::settings::lines_of(text), key);
    assert(read_under(st, crate::settings::lines_of(text), key));
}

impl Desc {
    /// Read a `desc` text.
    pub fn parse(text: &str) -> (d: Desc)
        ensures
            entries_view(d.fields@) == desc_spec(text@),
    {
        let all = text::chars(text);
        let pieces = crate::settings::lines(all.as_slice());
        let ghost ps = text::views(pieces@);
        let n = pieces.len();
        let ghost lines = crate::settings::lines_of(text@);
        assert(lines =~= ps.take(n as int));
        let mut fields: Vec<(String, Vec<String>)> = Vec::new();
        let mut key: Option<Vec<char>> = None;
        let ghost start = DescState { entries: Seq::empty(), key: None };
        assert(entries_view(fields@) =~= Seq::<(Seq<char>, Seq<Seq<char>>)>::empty());
        let mut i: usize = 0;
        assert(lines.skip(0) =~= lines);
        while i < n
            invariant
                ps == text::views(pieces@),
                lines == ps.take(n as int),
                lines == crate::settings::lines_of(text@),
                n <= pieces@.len(),
                i <= n,
                desc_lines(
                    DescState {
                        entries: entries_view(fields@),
                        key: match key {
                            Some(k) => Some(k@),
                            None => None,
                        },
                    },
                    lines.skip(i as int),
                ) == desc_lines(start, lines),
            decreases n - i,
        {
            let line = &pieces[i];
            assert(lines.skip(i as int)[0] == line@);
            assert(lines.skip(i as int).drop_first() =~= lines.skip(i + 1));
            let ghost before = entries_view(fields@);
            if line.len() >= 2 && line[0] == '%' && line[line.len() - 1] == '%' {
                let k = text::slice_chars(line.as_slice(), 1, line.len() - 1);
                match find_key(&fields, k.as_slice()) {
                    Some(_) => {},
                    None => {
                        let none: Vec<String> = Vec::new();
                        assert(strings_view(none@) =~= Seq::<Seq<char>>::empty());
                        let name = text::string_of(k.as_slice());
                        fields.push((name, none));
                        assert(entries_view(fields@) =~= before.push((k@, Seq::<Seq<char>>::empty())));
                    },
                }
                key = Some(k);
            } else if line.len() == 0 {
            } else {
                match &key {
                    Some(k) => {
                        match find_key(&fields, k.as_slice()) {
                            Some(at) => {
                                let (name, mut values) = fields.remove(at);
                                let ghost old_values = strings_view(values@);
                                values.push(text::string_of(line.as_slice()));
                                assert(strings_view(values@) =~= old_values.push(line@));
                                fields.insert(at, (name, values));
                                assert(entries_view(fields@) =~= before.update(
                                    at as int,
                                    (k@, before[at as int].1.push(line@)),
                                )) by {
                                    lemma_index_of(before, k@);
                                }
                            },
                            None => {},
                        }
                    },
                    None => {},
                }
            }
            i = i + 1;
        }
        Desc { fields }
    }

    /// The first value of a key.
    pub fn first(&self, key: &str) -> (r: Option<&str>)
        ensures
            match r {
                Some(s) => first_of(entries_view(self.fields@), key@) == Some(s@),
                None => first_of(entries_view(self.fields@), key@) is None,
            },
    {
        let k = text::chars(key);
        match find_key(&self.fields, k.as_slice()) {
            Some(i) => {
                let values = &self.fields[i].1;
                assert(entries_view(self.fields@)[i as int].1 == strings_view(values@));
                if values.len() > 0 {
                    Some(values[0].as_str())
                } else {
                    None
                }
            },
            None => None,
        }
    }

    /// Every value of a key; none where the key is absent.
    pub fn all(&self, key: &str) -> (r: &[String])
        ensures
            strings_view(r@) == match lookup(entries_view(self.fields@), key@) {
                Some(v) => v,
                None => Seq::<Seq<char>>::empty(),
            },
    {
        let k = text::chars(key);
        match find_key(&self.fields, k.as_slice()) {
            Some(i) => {
                assert(entries_view(self.fields@)[i as int].1 == strings_view(self.fields@[i as int].1@));
                self.fields[i].1.as_slice()
            },
            None => {
                let empty: &[String] = &[];
                assert(strings_view(empty@) =~= Seq::<Seq<char>>::empty());
                empty
            },
        }
    }

    /// The first value of a key as an unsigned number.
    pub fn u64(&self, key: &str) -> (r: Option<u64>)
        ensures
            match first_of(entries_view(self.fields@), key@) {
                Some(s) => match text::parse_unsigned(s, u64::MAX as nat) {
                    Some(n) => r == Some(n as u64),
                    None => r is None,
                },
                None => r is None,
            },
    {
        match self.first(key) {
            Some(s) => {
                let c = text::chars(s);
                text::parse_unsigned_chars(c.as_slice(), u64::MAX)
            },
            None => None,
        }
    }

    /// The first value of a key as a signed number.
    pub fn i64(&self, key: &str) -> (r: Option<i64>)
        ensures
            match first_of(entries_view(self.fields@), key@) {
                Some(s) => match text::parse_signed(s) {
                    Some(n) => r == Some(n as i64),
                    None => r is None,
                },
                None => r is None,
            },
    {
        match self.first(key) {
            Some(s) => {
                let c = text::chars(s);
                text::parse_i64_chars(c.as_slice())
            },
            None => None,
        }
    }

    /// The package's name, or nothing.
    pub fn name(&self) -> (r: &str)
        ensures
            r@ == match first_of(entries_view(self.fields@), "NAME"@) {
                Some(s) => s,
                None => Seq::<char>::empty(),
            },
    {
        proof {
            reveal_strlit("");
        }
        match self.first("NAME") {
            Some(s) => s,
            None => "",
        }
    }

    /// The package's version, or nothing.
    pub fn version(&self) -> (r: &str)
        ensures
            r@ == match first_of(entries_view(self.fields@), "VERSION"@) {
                Some(s) => s,
                None => Seq::<char>::empty(),
            },
    {
        proof {
            reveal_strlit("");
        }
        match self.first("VERSION") {
            Some(s) => s,
            None => "",
        }
    }
}

pub open spec fn desc_name(d: Desc) -> Seq<char> {
    match first_of(entries_view(d.fields@), "NAME"@) {
        Some(s) => s,
        None => Seq::<char>::empty(),
    }
}

/// The first of `packages` with this name.
pub open spec fn package_index(packages: Seq<Desc>, name: Seq<char>) -> Option<int> {
    if exists|i: int| 0 <= i < packages.len() && desc_name(packages[i]) == name {
        Some(
            choose|i: int|
                0 <= i < packages.len() && desc_name(packages[i]) == name && forall|j: int|
                    0 <= j < i ==> desc_name(#[trigger] packages[j]) != name,
        )
    } else {
        None
    }
}

proof fn lemma_package_index(packages: Seq<Desc>, name: Seq<char>, i: int)
    requires
        0 <= i < packages.len(),
        desc_name(packages[i]) == name,
        forall|j: int| 0 <= j < i ==> desc_name(#[trigger] packages[j]) != name,
    ensures
        package_index(packages, name) == Some(i),
{
    let k = choose|k: int|
        0 <= k < packages.len() && desc_name(packages[k]) == name && forall|j: int|
            0 <= j < k ==> desc_name(#[trigger] packages[j]) != name;
    assert(0 <= k < packages.len() && desc_name(packages[k]) == name && forall|j: int|
        0 <= j < k ==> desc_name(#[trigger] packages[j]) != name);
    if k < i {
        assert(desc_name(packages[k]) != name);
    }
    if i < k {
        assert(desc_name(packages[i]) != name);
    }
}

fn find_package<'a>(packages: &'a Vec<Desc>, name: &str) -> (r: Option<&'a Desc>)
    ensures
        match package_index(packages@, name@) {
            Some(i) => r matches Some(d) && *d == packages@[i],
            None => r is None,
        },
{
    let mut i: usize = 0;
    while i < packages.len()
        invariant
            i <= packages@.len(),
            forall|j: int| 0 <= j < i ==> desc_name(#[trigger] packages@[j]) != name@,
        decreases packages@.len() - i,
    {
        let d = &packages[i];
        let n = text::chars(d.name());
        if text::eq_str(n.as_slice(), name) {
            proof {
                lemma_package_index(packages@, name@, i as int);
            }
            return Some(d);
        }
        i = i + 1;
    }
    None
}

/// The installed packages.
#[derive(Clone, Debug, PartialEq, Eq)]
pub struct LocalDb {
    pub packages: Vec<Desc>,
}

impl LocalDb {
    pub const DEFAULT_PATH: &'static str = "/var/lib/pacman/local";

    /// The installed package of this name.
    pub fn get(&self, name: &str) -> (r: Option<&Desc>)
        ensures
            match package_index(self.packages@, name@) {
                Some(i) => r matches Some(d) && *d == self.packages@[i],
                None => r is None,
            },
    {
        find_package(&self.packages, name)
    }
}

/// One repository's sync database.
#[derive(Clone, Debug, PartialEq, Eq)]
pub struct SyncDb {
    pub repo: String,
    pub packages: Vec<Desc>,
}

impl SyncDb {
    /// The package of this name in the repository.
    pub fn get(&self, name: &str) -> (r: Option<&Desc>)
        ensures
            match package_index(self.packages@, name@) {
                Some(i) => r matches Some(d) && *d == self.packages@[i],
                None => r is None,
            },
    {
        find_package(&self.packages, name)
    }
}

/// The section name of a `pacman.conf` line: `[name]` once trimmed, the
/// name trimmed again.
pub open spec fn section_of(line: Seq<char>) -> Option<Seq<char>> {
    let l = text::trim(line);
    if l.len() >= 2 && l[0] == '[' && l.last() == ']' {
        Some(text::trim(l.subrange(1, l.len() - 1)))
    } else {
        None
    }
}

/// The repositories a `pacman.conf` names, in order, with their database
/// paths: every section but `options`.
pub open spec fn repos_of(lines: Seq<Seq<char>>, sync_dir: Seq<char>) -> Seq<(Seq<char>, Seq<char>)>
    decreases lines.len(),
{
    if lines.len() == 0 {
        Seq::empty()
    } else {
        repos_of(lines.drop_last(), sync_dir) + match section_of(lines.last()) {
            Some(name) => if name != "options"@ {
                seq![(name, join_path(sync_dir, name + ".db"@))]
            } else {
                Seq::empty()
            },
            None => Seq::empty(),
        }
    }
}

pub open spec fn pairs_view(v: Seq<(String, String)>) -> Seq<(Seq<char>, Seq<char>)> {
    v.map_values(|p: (String, String)| (p.0@, p.1@))
}

/// The repositories `pacman.conf` names, in order, with their database
/// paths under `sync_dir`.
pub fn repos(conf: &str, sync_dir: &str) -> (r: Vec<(String, String)>)
    ensures
        pairs_view(r@) == repos_of(crate::settings::lines_of(conf@), sync_dir@),
{
    let all = text::chars(conf);
    let pieces = crate::settings::lines(all.as_slice());
    let ghost ps = text::views(pieces@);
    let n = pieces.len();
    let ghost lines = crate::settings::lines_of(conf@);
    assert(lines =~= ps.take(n as int));
    let dir = text::chars(sync_dir);
    let mut out: Vec<(String, String)> = Vec::new();
    let mut i: usize = 0;
    assert(pairs_view(out@) =~= repos_of(lines.take(0), sync_dir@));
    while i < n
        invariant
            ps == text::views(pieces@),
            lines == ps.take(n as int),
            n <= pieces@.len(),
            dir@ == sync_dir@,
            i <= n,
            pairs_view(out@) == repos_of(lines.take(i as int), sync_dir@),
        decreases n - i,
    {
        assert(lines.take(i + 1).drop_last() =~= lines.take(i as int));
        assert(lines.take(i + 1).last() == pieces@[i as int]@);
        let ghost before = pairs_view(out@);
        let l = text::trim_chars(pieces[i].as_slice());
        if l.len() >= 2 && l[0] == '[' && l[l.len() - 1] == ']' {
            let inner = text::slice_chars(l.as_slice(), 1, l.len() - 1);
            let name = text::trim_chars(inner.as_slice());
            if !text::eq_str(name.as_slice(), "options") {
                let mut path = text::string_of(dir.as_slice());
                let mut file = text::string_of(name.as_slice());
                text::push_str(&mut file, ".db");
                let b = text::chars(path.as_str());
                if b.len() > 0 && b[b.len() - 1] != '/' {
                    text::push_char(&mut path, '/');
                }
                text::push_str(&mut path, file.as_str());
                assert(path@ =~= join_path(sync_dir@, name@ + ".db"@));
                out.push((text::string_of(name.as_slice()), path));
                assert(pairs_view(out@) =~= before + seq![(name@, join_path(sync_dir@, name@ + ".db"@))]);
            } else {
                assert(pairs_view(out@) =~= before + Seq::<(Seq<char>, Seq<char>)>::empty());
            }
        } else {
            assert(pairs_view(out@) =~= before + Seq::<(Seq<char>, Seq<char>)>::empty());
        }
        i = i + 1;
    }
    assert(lines.take(n as int) =~= lines);
    out
}

// ---------------------------------------------------------------------------
// Databases from their files
// ---------------------------------------------------------------------------

/// The name a `desc` gives, by its entries.
pub open spec fn view_name(e: Seq<(Seq<char>, Seq<Seq<char>>)>) -> Seq<char> {
    match first_of(e, "NAME"@) {
        Some(s) => s,
        None => Seq::<char>::empty(),
    }
}

pub open spec fn descs_view(p: Seq<Desc>) -> Seq<Seq<(Seq<char>, Seq<Seq<char>>)>> {
    p.map_values(|d: Desc| entries_view(d.fields@))
}

/// A package joins the database under its name, replacing one read
/// earlier under the same name; a `desc` without a name is dropped.
pub open spec fn keep(
    p: Seq<Seq<(Seq<char>, Seq<Seq<char>>)>>,
    e: Seq<(Seq<char>, Seq<Seq<char>>)>,
) -> Seq<Seq<(Seq<char>, Seq<Seq<char>>)>> {
    let n = view_name(e);
    if n.len() == 0 {
        p
    } else {
        match crate::appstream::first_where(p.len(), named(p, n)) {
            Some(i) => p.update(i, e),
            None => p.push(e),
        }
    }
}

pub open spec fn named(p: Seq<Seq<(Seq<char>, Seq<Seq<char>>)>>, n: Seq<char>) -> spec_fn(int) -> bool {
    |i: int| view_name(p[i]) == n
}

/// The packages of a set of `desc` texts, read in order.
pub open spec fn keep_all(texts: Seq<Seq<char>>) -> Seq<Seq<(Seq<char>, Seq<Seq<char>>)>>
    decreases texts.len(),
{
    if texts.len() == 0 {
        Seq::empty()
    } else {
        keep(keep_all(texts.drop_last()), desc_spec(texts.last()))
    }
}

fn keep_exec(packages: &mut Vec<Desc>, d: Desc)
    ensures
        descs_view(final(packages)@) == keep(descs_view(old(packages)@), entries_view(d.fields@)),
{
    let ghost pv = descs_view(packages@);
    let ghost e = entries_view(d.fields@);
    let name = text::chars(d.name());
    assert(name@ == view_name(e));
    if name.len() == 0 {
        return;
    }
    let ghost p = named(pv, view_name(e));
    let mut i: usize = 0;
    while i < packages.len()
        invariant
            i <= packages@.len(),
            pv == descs_view(packages@),
            pv == descs_view(old(packages)@),
            e == entries_view(d.fields@),
            p == named(pv, view_name(e)),
            name@ == view_name(e),
            name@.len() > 0,
            forall|j: int| 0 <= j < i ==> !#[trigger] p(j),
        decreases packages@.len() - i,
    {
        let n = text::chars(packages[i].name());
        assert(n@ == view_name(pv[i as int]));
        if text::eq(n.as_slice(), name.as_slice()) {
            proof {
                crate::appstream::lemma_first_where(pv.len(), p);
                assert(p(i as int));
                assert(crate::appstream::first_where(pv.len(), p) == Some(i as int));
                assert(view_name(e).len() > 0);
                assert(keep(pv, e) == (match crate::appstream::first_where(pv.len(), named(pv, view_name(e))) {
                    Some(k) => pv.update(k, e),
                    None => pv.push(e),
                }));
                assert(keep(pv, e) == pv.update(i as int, e));
            }
            let ghost old_p = packages@;
            packages.set(i, d);
            assert forall|j: int| 0 <= j < pv.len() implies #[trigger] descs_view(packages@)[j] == pv.update(i as int, e)[j] by {
                if j != i {
                    assert(packages@[j] == old_p[j]);
                }
            }
            assert(descs_view(packages@) =~= pv.update(i as int, e));
            return;
        }
        i = i + 1;
    }
    proof {
        crate::appstream::lemma_first_where(pv.len(), p);
    }
    packages.push(d);
    assert(descs_view(packages@) =~= pv.push(e));
}

impl LocalDb {
    /// The installed packages from the texts of their `desc` files.
    pub fn from_texts(texts: &Vec<String>) -> (db: LocalDb)
        ensures
            descs_view(db.packages@) == keep_all(strings_view(texts@)),
    {
        let mut packages: Vec<Desc> = Vec::new();
        let mut i: usize = 0;
        while i < texts.len()
            invariant
                i <= texts@.len(),
                descs_view(packages@) == keep_all(strings_view(texts@.take(i as int))),
            decreases texts@.len() - i,
        {
            let d = Desc::parse(texts[i].as_str());
            keep_exec(&mut packages, d);
            assert(strings_view(texts@.take(i + 1)).drop_last() =~= strings_view(texts@.take(i as int)));
            i = i + 1;
        }
        assert(texts@.take(texts@.len() as int) =~= texts@);
        LocalDb { packages }
    }
}

/// What `flate2`'s `GzDecoder` reads out of these bytes, when it reads to
/// the end without an error.
pub uninterp spec fn gunzip_of(bytes: Seq<u8>) -> Option<Seq<u8>>;

/// `flate2::read::GzDecoder` read to the end: the bytes the gzip stream
/// holds, or the decoder's error text, which is not stated.
#[verifier::external_body]
fn gunzip(bytes: &[u8]) -> (r: Result<Vec<u8>, String>)
    ensures
        r is Ok <==> gunzip_of(bytes@) is Some,
        r matches Ok(v) ==> gunzip_of(bytes@) == Some(v@),
{
    let mut out = Vec::new();
    match std::io::Read::read_to_end(&mut flate2::read::GzDecoder::new(bytes), &mut out) {
        Ok(_) => Ok(out),
        Err(e) => Err(e.to_string()),
    }
}

/// What `ruzstd`'s `StreamingDecoder` reads out of these bytes, when it
/// reads to the end without an error.
pub uninterp spec fn unzstd_of(bytes: Seq<u8>) -> Option<Seq<u8>>;

/// `ruzstd::decoding::StreamingDecoder` read to the end: the bytes the
/// zstd frame holds, or the decoder's error text, which is not stated. The
/// decoder's own `panic!`s sit behind checks that refuse their inputs first:
/// a reserved block type is an error when the block header is read, a
/// literals section has no compressed size only when raw or run-length,
/// and the frame state is set before any block is decoded.
#[verifier::external_body]
fn unzstd(bytes: &[u8]) -> (r: Result<Vec<u8>, String>)
    ensures
        r is Ok <==> unzstd_of(bytes@) is Some,
        r matches Ok(v) ==> unzstd_of(bytes@) == Some(v@),
{
    let mut out = Vec::new();
    let mut decoder = ruzstd::decoding::StreamingDecoder::new(bytes).map_err(|e| e.to_string())?;
    std::io::Read::read_to_end(&mut decoder, &mut out).map_err(|e| e.to_string())?;
    Ok(out)
}

/// Why a tar archive could not be read: not an archive at all, or one of
/// its entries; each with the reader's text.
pub enum TarFailure {
    NotArchive(String),
    Entry(String),
}

pub open spec fn tar_view(v: Seq<(String, Vec<u8>)>) -> Seq<(Seq<char>, Seq<u8>)> {
    v.map_values(|e: (String, Vec<u8>)| (e.0@, e.1@))
}

/// The entries `tar` reads out of these bytes, each by its path and its
/// content, when every entry reads without an error.
pub uninterp spec fn tar_entries_of(bytes: Seq<u8>) -> Option<Seq<(Seq<char>, Seq<u8>)>>;

/// `tar::Archive::entries`: every entry in order, by its path (lossily as
/// text; empty where the path cannot be read) and its content. Which
/// failure comes, and its text, are not stated.
#[verifier::external_body]
fn tar_entries(bytes: &[u8]) -> (r: Result<Vec<(String, Vec<u8>)>, TarFailure>)
    ensures
        r is Ok <==> tar_entries_of(bytes@) is Some,
        r matches Ok(v) ==> tar_entries_of(bytes@) == Some(tar_view(v@)),
{
    let mut archive = tar::Archive::new(bytes);
    let entries = archive.entries().map_err(|e| TarFailure::NotArchive(e.to_string()))?;
    let mut out = Vec::new();
    for entry in entries {
        let mut entry = entry.map_err(|e| TarFailure::Entry(e.to_string()))?;
        let path = entry.path().map(|p| p.to_string_lossy().into_owned()).unwrap_or_default();
        let mut content = Vec::new();
        std::io::Read::read_to_end(&mut entry, &mut content).map_err(|e| TarFailure::Entry(e.to_string()))?;
        out.push((path, content));
    }
    Ok(out)
}

pub open spec fn gzip_magic(b: Seq<u8>) -> bool {
    b.len() >= 2 && b[0] == 0x1f && b[1] == 0x8b
}

pub open spec fn zstd_magic(b: Seq<u8>) -> bool {
    b.len() >= 4 && b[0] == 0x28 && b[1] == 0xb5 && b[2] == 0x2f && b[3] == 0xfd
}

/// gzip, zstd or already plain, judged by the magic bytes.
pub open spec fn decompress_spec(b: Seq<u8>) -> Option<Seq<u8>> {
    if gzip_magic(b) {
        gunzip_of(b)
    } else if zstd_magic(b) {
        unzstd_of(b)
    } else {
        Some(b)
    }
}

fn decompress(bytes: &[u8]) -> (r: Result<Vec<u8>, crate::model::Error>)
    ensures
        match decompress_spec(bytes@) {
            Some(plain) => r matches Ok(v) && v@ == plain,
            None => r matches Err(e) && (if gzip_magic(bytes@) {
                "gzip: "@.is_prefix_of(e.message@)
            } else {
                "zstd: "@.is_prefix_of(e.message@)
            }),
        },
{
    if bytes.len() >= 2 && bytes[0] == 0x1f && bytes[1] == 0x8b {
        match gunzip(bytes) {
            Ok(v) => Ok(v),
            Err(t) => {
                let mut m = text::string_from("gzip: ");
                text::push_str(&mut m, t.as_str());
                Err(crate::model::Error::new(m))
            },
        }
    } else if bytes.len() >= 4 && bytes[0] == 0x28 && bytes[1] == 0xb5 && bytes[2] == 0x2f && bytes[3] == 0xfd {
        match unzstd(bytes) {
            Ok(v) => Ok(v),
            Err(t) => {
                let mut m = text::string_from("zstd: ");
                text::push_str(&mut m, t.as_str());
                Err(crate::model::Error::new(m))
            },
        }
    } else {
        let mut v: Vec<u8> = Vec::new();
        let mut i: usize = 0;
        while i < bytes.len()
            invariant
                i <= bytes@.len(),
                v@ == bytes@.take(i as int),
            decreases bytes@.len() - i,
        {
            v.push(bytes[i]);
            assert(v@ =~= bytes@.take(i + 1));
            i = i + 1;
        }
        assert(bytes@.take(bytes@.len() as int) =~= bytes@);
        Ok(v)
    }
}

/// The contents of the archive's `desc` files, in archive order.
pub open spec fn desc_contents(es: Seq<(Seq<char>, Seq<u8>)>) -> Seq<Seq<u8>>
    decreases es.len(),
{
    if es.len() == 0 {
        Seq::empty()
    } else {
        let rest = desc_contents(es.drop_last());
        if crate::launch::file_name_spec(es.last().0) == Some("desc"@) {
            rest.push(es.last().1)
        } else {
            rest
        }
    }
}

pub open spec fn decoded(cs: Seq<Seq<u8>>) -> Seq<Seq<char>> {
    cs.map_values(|c: Seq<u8>| vstd::utf8::decode_utf8(c))
}

pub open spec fn all_text(cs: Seq<Seq<u8>>) -> bool {
    forall|i: int| 0 <= i < cs.len() ==> vstd::utf8::valid_utf8(#[trigger] cs[i])
}

impl SyncDb {
    /// A repository's database from its file's bytes, whichever compression
    /// it uses: every `desc` in the archive, by name.
    pub fn from_bytes(repo: &str, bytes: &[u8]) -> (r: Result<SyncDb, crate::model::Error>)
        ensures
            match decompress_spec(bytes@) {
                None => r matches Err(e) && ("gzip: "@.is_prefix_of(e.message@) || "zstd: "@.is_prefix_of(
                    e.message@,
                )),
                Some(plain) => match tar_entries_of(plain) {
                    None => r matches Err(e) && (repo@ + ".db"@).is_prefix_of(e.message@),
                    Some(es) => if all_text(desc_contents(es)) {
                        r matches Ok(db) && db.repo@ == repo@ && descs_view(db.packages@) == keep_all(
                            decoded(desc_contents(es)),
                        )
                    } else {
                        r matches Err(e) && e.message@ == repo@ + ".db: stream did not contain valid UTF-8"@
                    },
                },
            },
    {
        let plain = match decompress(bytes) {
            Ok(p) => p,
            Err(e) => return Err(e),
        };
        proof {
            reveal_strlit(".db");
            reveal_strlit(".db is not a tar archive: ");
            reveal_strlit(".db: ");
        }
        let entries = match tar_entries(plain.as_slice()) {
            Ok(es) => es,
            Err(TarFailure::NotArchive(t)) => {
                let mut m = text::string_from(repo);
                text::push_str(&mut m, ".db is not a tar archive: ");
                text::push_str(&mut m, t.as_str());
                assert((repo@ + ".db"@).is_prefix_of(m@)) by {
                    assert(m@.take((repo@ + ".db"@).len() as int) =~= repo@ + ".db"@);
                }
                return Err(crate::model::Error::new(m));
            },
            Err(TarFailure::Entry(t)) => {
                let mut m = text::string_from(repo);
                text::push_str(&mut m, ".db: ");
                text::push_str(&mut m, t.as_str());
                assert((repo@ + ".db"@).is_prefix_of(m@)) by {
                    assert(m@.take((repo@ + ".db"@).len() as int) =~= repo@ + ".db"@);
                }
                return Err(crate::model::Error::new(m));
            },
        };
        let ghost es = tar_view(entries@);
        let mut texts: Vec<String> = Vec::new();
        let mut i: usize = 0;
        while i < entries.len()
            invariant
                i <= entries@.len(),
                es == tar_view(entries@),
                tar_entries_of(plain@) == Some(es),
                decompress_spec(bytes@) == Some(plain@),
                all_text(desc_contents(es.take(i as int))),
                strings_view(texts@) == decoded(desc_contents(es.take(i as int))),
            decreases entries@.len() - i,
        {
            assert(es.take(i + 1).drop_last() =~= es.take(i as int));
            assert(es.take(i + 1).last() == es[i as int]);
            let name = crate::launch::file_name(entries[i].0.as_str());
            let is_desc = match &name {
                Some(n) => {
                    let nc = text::chars(n.as_str());
                    text::eq_str(nc.as_slice(), "desc")
                },
                None => false,
            };
            if is_desc {
                match text::utf8_text(entries[i].1.as_slice()) {
                    Some(t) => {
                        let ghost before = strings_view(texts@);
                        texts.push(t);
                        assert(strings_view(texts@) =~= before.push(t@));
                        assert(decoded(desc_contents(es.take(i + 1))) =~= decoded(desc_contents(es.take(i as int))).push(
                            vstd::utf8::decode_utf8(es[i as int].1),
                        ));
                    },
                    None => {
                        let mut m = text::string_from(repo);
                        text::push_str(&mut m, ".db: stream did not contain valid UTF-8");
                        proof {
                            let cs = desc_contents(es);
                            assert(es[i as int].0 == entries@[i as int].0@);
                            assert(es[i as int].1 == entries@[i as int].1@);
                            assert(crate::launch::file_name_spec(es[i as int].0) == Some("desc"@));
                            assert(desc_contents(es.take(i + 1)) == desc_contents(es.take(i as int)).push(es[i as int].1));
                            let dc = desc_contents(es.take(i + 1));
                            assert(!vstd::utf8::valid_utf8(entries@[i as int].1@));
                            assert(dc[dc.len() - 1] == es[i as int].1);
                            assert(!vstd::utf8::valid_utf8(dc[dc.len() - 1]));
                            assert(!all_text(dc));
                            assert(!all_text(cs)) by {
                                lemma_desc_contents_prefix(es, i + 1);
                                let k = desc_contents(es.take(i + 1)).len() - 1;
                                assert(!vstd::utf8::valid_utf8(desc_contents(es.take(i + 1))[k]));
                                assert(cs[k] == desc_contents(es.take(i + 1))[k]);
                            }
                        }
                        let err = crate::model::Error::new(m);
                        assert(err.message@ == repo@ + ".db: stream did not contain valid UTF-8"@);
                        assert(!all_text(desc_contents(es)));
                        assert(tar_entries_of(plain@) == Some(es));
                        return Err(err);
                    },
                }
            } else {
                assert(desc_contents(es.take(i + 1)) == desc_contents(es.take(i as int)));
            }
            i = i + 1;
        }
        assert(es.take(entries@.len() as int) =~= es);
        let db = LocalDb::from_texts(&texts);
        Ok(SyncDb { repo: text::string_from(repo), packages: db.packages })
    }
}

/// The `desc` contents of a prefix of the archive are a prefix of all of
/// them.
proof fn lemma_desc_contents_prefix(es: Seq<(Seq<char>, Seq<u8>)>, n: int)
    requires
        0 <= n <= es.len(),
    ensures
        desc_contents(es.take(n)).len() <= desc_contents(es).len(),
        forall|k: int| 0 <= k < desc_contents(es.take(n)).len() ==> desc_contents(es)[k] == #[trigger] desc_contents(es.take(n))[k],
    decreases es.len() - n,
{
    if n < es.len() {
        lemma_desc_contents_prefix(es, n + 1);
        assert(es.take(n + 1).drop_last() =~= es.take(n));
        let a = desc_contents(es.take(n));
        let b = desc_contents(es.take(n + 1));
        assert(b == a || b == a.push(es[n].1));
        assert forall|k: int| 0 <= k < a.len() implies desc_contents(es)[k] == #[trigger] a[k] by {
            assert(b[k] == a[k]);
        }
    } else {
        assert(es.take(n) =~= es);
    }
}

} // verus!
