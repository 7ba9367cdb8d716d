//! What machine this is: the distribution, read from `/etc/os-release`.
//! The file and the session's environment are read by the application; the
//! reading of the text is here.

use vstd::prelude::*;
use crate::text;
use crate::model::{SystemInfo, strings_view};

verus! {

/// The value of an os-release line: trimmed, then without its quotes.
pub open spec fn unquote(v: Seq<char>) -> Seq<char> {
    let t = text::trim(v);
    text::trim_char(t, '"')
}

/// What an os-release text says: the last `ID`, `ID_LIKE` (split at white
/// space) and `PRETTY_NAME`; `linux` for a missing id, and the id for a
/// missing name.
pub struct OsRelease {
    pub id: Seq<char>,
    pub like: Seq<Seq<char>>,
    pub pretty: Seq<char>,
}

pub open spec fn os_line(st: OsRelease, line: Seq<char>) -> OsRelease {
    match text::split_once(line, '=') {
        None => st,
        Some((k, v)) => {
            let key = text::trim(k);
            let value = unquote(v);
            if key == "ID"@ {
                OsRelease { id: value, ..st }
            } else if key == "ID_LIKE"@ {
                OsRelease { like: text::words(value), ..st }
            } else if key == "PRETTY_NAME"@ {
                OsRelease { pretty: value, ..st }
            } else {
                st
            }
        },
    }
}

pub open spec fn os_lines(st: OsRelease, lines: Seq<Seq<char>>) -> OsRelease
    decreases lines.len(),
{
    if lines.len() == 0 {
        st
    } else {
        os_lines(os_line(st, lines[0]), lines.drop_first())
    }
}

pub open spec fn os_release_spec(t: Seq<char>) -> OsRelease {
    let st = os_lines(
        OsRelease { id: Seq::empty(), like: Seq::empty(), pretty: Seq::empty() },
        crate::settings::lines_of(t),
    );
    let id = if st.id.len() == 0 {
        "linux"@
    } else {
        st.id
    };
    let pretty = if st.pretty.len() == 0 {
        id
    } else {
        st.pretty
    };
    OsRelease { id, like: st.like, pretty }
}

/// The machine as an os-release text describes it, with the processor
/// architecture and the session's desktop and session type as the caller
/// read them.
pub fn from_os_release(text: &str, arch: &str, desktop: Option<String>, session: Option<String>) -> (r:
    SystemInfo)
    ensures
        r.distro_id@ == os_release_spec(text@).id,
        strings_view(r.distro_like@) == os_release_spec(text@).like,
        r.pretty_name@ == os_release_spec(text@).pretty,
        r.arch@ == arch@,
        r.desktop == desktop,
        r.session == session,
{
    let all = text::chars(text);
    let pieces = crate::settings::lines(all.as_slice());
    let ghost ps = text::views(pieces@);
    let n = pieces.len();
    let ghost lines = crate::settings::lines_of(text@);
    assert(lines =~= ps.take(n as int));
    let mut id: Vec<char> = Vec::new();
    let mut like: Vec<Vec<char>> = Vec::new();
    let mut pretty: Vec<char> = Vec::new();
    let mut i: usize = 0;
    assert(lines.skip(0) =~= lines);
    let ghost start = OsRelease { id: Seq::empty(), like: Seq::empty(), pretty: Seq::empty() };
    assert(id@ =~= Seq::<char>::empty() && pretty@ =~= Seq::<char>::empty());
    assert(text::views(like@) =~= Seq::<Seq<char>>::empty());
    while i < n
        invariant
            ps == text::views(pieces@),
            lines == ps.take(n as int),
            lines == crate::settings::lines_of(text@),
            n <= pieces@.len(),
            i <= n,
            os_lines(OsRelease { id: id@, like: text::views(like@), pretty: pretty@ }, lines.skip(i as int))
                == os_lines(start, lines),
        decreases n - i,
    {
        assert(lines.skip(i as int)[0] == pieces@[i as int]@);
        assert(lines.skip(i as int).drop_first() =~= lines.skip(i + 1));
        match text::split_once_char(pieces[i].as_slice(), '=') {
            None => {},
            Some((k, v)) => {
                let key = text::trim_chars(k.as_slice());
                let t = text::trim_chars(v.as_slice());
                let value = text::trim_char_chars(t.as_slice(), '"');
                if text::eq_str(key.as_slice(), "ID") {
                    id = value;
                } else if text::eq_str(key.as_slice(), "ID_LIKE") {
                    like = text::words_chars(value.as_slice());
                } else if text::eq_str(key.as_slice(), "PRETTY_NAME") {
                    pretty = value;
                }
            },
        }
        i = i + 1;
    }
    if id.len() == 0 {
        id = text::chars("linux");
    }
    if pretty.len() == 0 {
        pretty = text::copy_chars(id.as_slice());
    }
    let mut distro_like: Vec<String> = Vec::new();
    let mut j: usize = 0;
    while j < like.len()
        invariant
            j <= like@.len(),
            strings_view(distro_like@) == text::views(like@).take(j as int),
        decreases like@.len() - j,
    {
        let ghost o = distro_like@;
        distro_like.push(text::string_of(like[j].as_slice()));
        assert(strings_view(distro_like@) =~= strings_view(o).push(like@[j as int]@));
        assert(text::views(like@).take(j + 1) =~= text::views(like@).take(j as int).push(like@[j as int]@));
        j = j + 1;
    }
    assert(text::views(like@).take(like@.len() as int) =~= text::views(like@));
    SystemInfo {
        distro_id: text::string_of(id.as_slice()),
        distro_like,
        pretty_name: text::string_of(pretty.as_slice()),
        arch: text::string_from(arch),
        desktop,
        session,
    }
}

} // verus!
