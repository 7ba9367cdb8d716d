//! The catalogue reader: one pass over the events of an AppStream file.
//!
//! `quick-xml` hands out events; a small stack of element tags says where
//! in the document each one is, so `<description>` under `<release>` is not
//! the component's description and `<id>` under `<provides>` is not its id.
//! Subtrees the store does not draw from, and every translated element, are
//! skipped whole.
//!
//! The description is re-serialised as it is read, which is what limits its
//! markup to the tags the page renders and cleans up the catalogue's
//! indentation.

use vstd::prelude::*;
use crate::text;
use crate::model::{Picture, PictureView, Screenshot};
use quick_xml::events::Event;
use quick_xml::Error as XmlError;
use super::Component;
use super::reader::{Descend, IconFiles, Parser};

verus! {

// ---------------------------------------------------------------------------
// Start tags and their attributes
// ---------------------------------------------------------------------------

/// A start tag as the reader sees it: its local name, and its attributes in
/// order, each with its normalised value where that could be read.
#[derive(Clone, Debug)]
pub struct StartTag {
    pub name: String,
    pub attrs: Vec<(String, Option<String>)>,
}

/// The value of the first attribute with this key.
pub open spec fn attr_spec(attrs: Seq<(String, Option<String>)>, key: Seq<char>) -> Option<Seq<char>>
    decreases attrs.len(),
{
    if attrs.len() == 0 {
        None
    } else if attrs[0].0@ == key {
        crate::model::opt_view(attrs[0].1)
    } else {
        attr_spec(attrs.drop_first(), key)
    }
}

pub fn attr(tag: &StartTag, key: &str) -> (r: Option<String>)
    ensures
        crate::model::opt_view(r) == attr_spec(tag.attrs@, key@),
{
    let k = text::string_from(key);
    let mut i: usize = 0;
    assert(tag.attrs@.skip(0) =~= tag.attrs@);
    while i < tag.attrs.len()
        invariant
            i <= tag.attrs@.len(),
            k@ == key@,
            attr_spec(tag.attrs@.skip(i as int), key@) == attr_spec(tag.attrs@, key@),
        decreases tag.attrs@.len() - i,
    {
        assert(tag.attrs@.skip(i as int)[0] == tag.attrs@[i as int]);
        assert(tag.attrs@.skip(i as int).drop_first() =~= tag.attrs@.skip(i + 1));
        if tag.attrs[i].0 == k {
            return match &tag.attrs[i].1 {
                Some(v) => Some(v.clone()),
                None => None,
            };
        }
        i = i + 1;
    }
    None
}

/// An element written for a language is a translation, which the store
/// does not show.
pub open spec fn translated(attrs: Seq<(String, Option<String>)>) -> bool {
    match attr_spec(attrs, "xml:lang"@) {
        Some(l) => text::trim(l).len() > 0,
        None => false,
    }
}

pub(crate) fn is_translated(tag: &StartTag) -> (r: bool)
    ensures
        r == translated(tag.attrs@),
{
    match attr(tag, "xml:lang") {
        Some(l) => {
            let c = text::chars(l.as_str());
            text::trim_chars(c.as_slice()).len() > 0
        },
        None => false,
    }
}

/// A whole number in an attribute, around white space.
pub open spec fn number_spec(attrs: Seq<(String, Option<String>)>, key: Seq<char>) -> Option<u32> {
    match attr_spec(attrs, key) {
        Some(v) => match text::parse_unsigned(text::trim(v), u32::MAX as nat) {
            Some(n) => Some(n as u32),
            None => None,
        },
        None => None,
    }
}

pub(crate) fn number(tag: &StartTag, key: &str) -> (r: Option<u32>)
    ensures
        r == number_spec(tag.attrs@, key@),
{
    match attr(tag, key) {
        Some(v) => {
            let c = text::chars(v.as_str());
            let t = text::trim_chars(c.as_slice());
            match text::parse_unsigned_chars(t.as_slice(), u32::MAX as u64) {
                Some(n) => Some(n as u32),
                None => None,
            }
        },
        None => None,
    }
}

/// Whether an attribute says exactly this.
pub(crate) fn attr_is(tag: &StartTag, key: &str, want: &str) -> (r: bool)
    ensures
        r == (attr_spec(tag.attrs@, key@) == Some(want@)),
{
    match attr(tag, key) {
        Some(v) => {
            let c = text::chars(v.as_str());
            text::eq_str(c.as_slice(), want)
        },
        None => false,
    }
}

/// A desktop, console or web application; `desktop` is what Flathub's
/// older catalogues call `desktop-application`.
pub open spec fn is_app_type(t: Seq<char>) -> bool {
    t == "desktop-application"@ || t == "console-application"@ || t == "web-application"@
        || t == "desktop"@
}

pub fn is_app(t: &str) -> (r: bool)
    ensures
        r == is_app_type(t@),
{
    let c = text::chars(t);
    let s = c.as_slice();
    text::eq_str(s, "desktop-application") || text::eq_str(s, "console-application") || text::eq_str(
        s,
        "web-application",
    ) || text::eq_str(s, "desktop")
}

// ---------------------------------------------------------------------------
// Addresses and dates
// ---------------------------------------------------------------------------

/// A URL the page can fetch: as written when it has a scheme, joined to the
/// file's `media_baseurl` when relative, nothing when relative and there is
/// no base.
pub open spec fn absolute_spec(url: Seq<char>, base: Option<Seq<char>>) -> Option<Seq<char>> {
    let u = text::trim(url);
    if u.len() == 0 {
        None
    } else if text::contains_seq(u, "://"@) {
        Some(u)
    } else {
        match base {
            Some(b) => Some(
                text::trim_char_end(text::trim(b), '/') + "/"@ + text::trim_char_start(u, '/'),
            ),
            None => None,
        }
    }
}

fn trim_start_char(s: &[char], c: char) -> (r: Vec<char>)
    ensures
        r@ == text::trim_char_start(s@, c),
{
    let mut i: usize = 0;
    assert(s@.skip(0) =~= s@);
    while i < s.len() && s[i] == c
        invariant
            i <= s@.len(),
            text::trim_char_start(s@.skip(i as int), c) == text::trim_char_start(s@, c),
        decreases s@.len() - i,
    {
        assert(s@.skip(i as int).drop_first() =~= s@.skip(i + 1));
        i = i + 1;
    }
    let r = text::slice_chars(s, i, s.len());
    assert(r@ =~= s@.skip(i as int));
    r
}

pub fn absolute(url: &str, base: Option<&str>) -> (r: Option<String>)
    ensures
        crate::model::opt_view(r) == absolute_spec(
            url@,
            match base {
                Some(b) => Some(b@),
                None => None,
            },
        ),
{
    let uc = text::chars(url);
    let u = text::trim_chars(uc.as_slice());
    if u.len() == 0 {
        return None;
    }
    if text::contains_str(u.as_slice(), "://") {
        return Some(text::string_of(u.as_slice()));
    }
    match base {
        Some(b) => {
            let bc = text::chars(b);
            let bt = text::trim_chars(bc.as_slice());
            let head = text::trim_char_end_chars(bt.as_slice(), '/');
            let tail = trim_start_char(u.as_slice(), '/');
            let mut s = text::string_of(head.as_slice());
            text::push_str(&mut s, "/");
            text::push_chars(&mut s, tail.as_slice());
            Some(s)
        },
        None => None,
    }
}

pub open spec fn is_ascii_digit(c: char) -> bool {
    '0' <= c && c <= '9'
}

/// The runs of ASCII digits in a text, in order.
pub open spec fn digit_runs(s: Seq<char>) -> Seq<Seq<char>>
    decreases s.len(),
{
    digit_runs_from(Seq::empty(), s)
}

pub open spec fn digit_runs_from(cur: Seq<char>, s: Seq<char>) -> Seq<Seq<char>>
    decreases s.len(),
{
    if s.len() == 0 {
        if cur.len() > 0 {
            seq![cur]
        } else {
            Seq::empty()
        }
    } else if is_ascii_digit(s[0]) {
        digit_runs_from(cur.push(s[0]), s.drop_first())
    } else if cur.len() > 0 {
        seq![cur] + digit_runs_from(Seq::empty(), s.drop_first())
    } else {
        digit_runs_from(Seq::empty(), s.drop_first())
    }
}

/// `YYYY-MM-DD`, optionally followed by `THH:MM:SS` and a zone the value is
/// taken to be UTC in, as Unix seconds: the hour is required after a `T`,
/// the minute and second default to 0; `None` for anything else, and for a
/// moment too far from 1970 for an `i64`.
pub open spec fn date_spec(s0: Seq<char>) -> Option<int> {
    let s = text::trim(s0);
    if s.len() < 10 || (exists|i: int| 0 <= i < 10 && #[trigger] s[i] > '\u{7f}') {
        None
    } else {
        let parts = text::split(s.take(10), '-');
        if parts.len() != 3 {
            None
        } else {
            match (text::parse_signed(parts[0]), text::parse_unsigned(parts[1], u32::MAX as nat), text::parse_unsigned(parts[2], u32::MAX as nat)) {
                (Some(year), Some(month), Some(day)) => if !(1 <= month <= 12) || !(1 <= day <= 31) {
                    None
                } else {
                    let base = crate::release::days_from_civil(year, month as int, day as int) * 86400;
                    let rest = s.skip(10);
                    let total = if rest.len() > 0 && rest[0] == 'T' {
                        let clock = digit_runs(rest.drop_first());
                        if clock.len() == 0 {
                            None
                        } else {
                            match text::parse_signed(clock[0]) {
                                None => None,
                                Some(hour) => {
                                    let minute = if clock.len() > 1 {
                                        match text::parse_signed(clock[1]) {
                                            Some(m) => m,
                                            None => 0,
                                        }
                                    } else {
                                        0
                                    };
                                    let second = if clock.len() > 2 {
                                        match text::parse_signed(clock[2]) {
                                            Some(x) => x,
                                            None => 0,
                                        }
                                    } else {
                                        0
                                    };
                                    Some(base + hour * 3600 + minute * 60 + second)
                                },
                            }
                        }
                    } else {
                        Some(base)
                    };
                    match total {
                        Some(t) => if i64::MIN <= t <= i64::MAX {
                            Some(t)
                        } else {
                            None
                        },
                        None => None,
                    }
                },
                _ => None,
            }
        }
    }
}


fn digit_runs_exec(s: &[char]) -> (r: Vec<Vec<char>>)
    ensures
        text::views(r@) == digit_runs(s@),
{
    let mut out: Vec<Vec<char>> = Vec::new();
    let mut cur: Vec<char> = Vec::new();
    let mut i: usize = 0;
    assert(s@.skip(0) =~= s@);
    while i < s.len()
        invariant
            i <= s@.len(),
            text::views(out@) + digit_runs_from(cur@, s@.skip(i as int)) == digit_runs(s@),
        decreases s@.len() - i,
    {
        let ghost rest = s@.skip(i as int);
        assert(rest[0] == s@[i as int]);
        assert(rest.drop_first() =~= s@.skip(i + 1));
        if '0' <= s[i] && s[i] <= '9' {
            let ghost c0 = cur@;
            cur.push(s[i]);
            assert(digit_runs_from(c0, rest) == digit_runs_from(cur@, s@.skip(i + 1)));
        } else if cur.len() > 0 {
            let ghost before = text::views(out@);
            let ghost c = cur@;
            assert(digit_runs_from(c, rest) == seq![c] + digit_runs_from(Seq::empty(), s@.skip(i + 1)));
            out.push(cur);
            cur = Vec::new();
            assert(text::views(out@) =~= before.push(c));
            assert(cur@ =~= Seq::<char>::empty());
            assert(before + (seq![c] + digit_runs_from(Seq::empty(), s@.skip(i + 1))) =~= before.push(c)
                + digit_runs_from(Seq::empty(), s@.skip(i + 1)));
        } else {
            assert(cur@ =~= Seq::<char>::empty());
            assert(digit_runs_from(cur@, rest) == digit_runs_from(cur@, s@.skip(i + 1)));
        }
        i = i + 1;
    }
    assert(s@.skip(i as int) =~= Seq::<char>::empty());
    if cur.len() > 0 {
        let ghost before = text::views(out@);
        let ghost c = cur@;
        out.push(cur);
        assert(text::views(out@) =~= before + seq![c]);
    } else {
        assert(text::views(out@) + Seq::<Seq<char>>::empty() =~= text::views(out@));
    }
    out
}

/// A release date as Unix seconds.
pub fn date_to_unix(s0: &str) -> (r: Option<i64>)
    ensures
        match r {
            Some(n) => date_spec(s0@) == Some(n as int),
            None => date_spec(s0@) is None,
        },
{
    let all = text::chars(s0);
    let s = text::trim_chars(all.as_slice());
    if s.len() < 10 {
        return None;
    }
    let mut i: usize = 0;
    while i < 10
        invariant
            s@ == text::trim(s0@),
            s@.len() >= 10,
            i <= 10,
            forall|j: int| 0 <= j < i ==> #[trigger] s@[j] <= '\u{7f}',
        decreases 10 - i,
    {
        if s[i] > '\u{7f}' {
            assert(s@[i as int] > '\u{7f}');
            return None;
        }
        i = i + 1;
    }
    let date = text::slice_chars(s.as_slice(), 0, 10);
    assert(date@ =~= s@.take(10));
    let parts = text::split_char(date.as_slice(), '-');
    assert(text::views(parts@).len() == parts@.len());
    if parts.len() != 3 {
        return None;
    }
    assert(text::views(parts@)[0] == parts@[0]@ && text::views(parts@)[1] == parts@[1]@
        && text::views(parts@)[2] == parts@[2]@);
    let year = text::parse_i64_chars(parts[0].as_slice());
    let month = text::parse_unsigned_chars(parts[1].as_slice(), u32::MAX as u64);
    let day = text::parse_unsigned_chars(parts[2].as_slice(), u32::MAX as u64);
    let (year, month, day) = match (year, month, day) {
        (Some(y), Some(m), Some(d)) => (y, m, d),
        _ => return None,
    };
    if !(1 <= month && month <= 12) || !(1 <= day && day <= 31) {
        return None;
    }
    let days = crate::release::days_from_civil_exec(year, month as u32, day as u32);
    let base: i128 = days * 86400;
    let rest = text::slice_chars(s.as_slice(), 10, s.len());
    assert(rest@ =~= s@.skip(10));
    let mut total: i128 = base;
    if rest.len() > 0 && rest[0] == 'T' {
        let after = text::slice_chars(rest.as_slice(), 1, rest.len());
        assert(after@ =~= rest@.drop_first());
        let clock = digit_runs_exec(after.as_slice());
        let ghost cv = text::views(clock@);
        assert(cv.len() == clock@.len());
        if clock.len() == 0 {
            return None;
        }
        assert(cv[0] == clock@[0]@);
        let hour = match text::parse_i64_chars(clock[0].as_slice()) {
            Some(h) => h,
            None => return None,
        };
        let minute: i64 = if clock.len() > 1 {
            assert(cv[1] == clock@[1]@);
            match text::parse_i64_chars(clock[1].as_slice()) {
                Some(m) => m,
                None => 0,
            }
        } else {
            0
        };
        let second: i64 = if clock.len() > 2 {
            assert(cv[2] == clock@[2]@);
            match text::parse_i64_chars(clock[2].as_slice()) {
                Some(x) => x,
                None => 0,
            }
        } else {
            0
        };
        total = base + (hour as i128) * 3600 + (minute as i128) * 60 + (second as i128);
    }
    if (i64::MIN as i128) <= total && total <= (i64::MAX as i128) {
        Some(total as i64)
    } else {
        None
    }
}

// ---------------------------------------------------------------------------
// The description
// ---------------------------------------------------------------------------

/// Runs of white space as one space each.
pub open spec fn collapse_from(s: Seq<char>, in_run: bool) -> Seq<char>
    decreases s.len(),
{
    if s.len() == 0 {
        Seq::empty()
    } else if text::is_space(s[0]) {
        if in_run {
            collapse_from(s.drop_first(), true)
        } else {
            seq![' '] + collapse_from(s.drop_first(), true)
        }
    } else {
        seq![s[0]] + collapse_from(s.drop_first(), false)
    }
}

pub open spec fn collapse_spec(s: Seq<char>) -> Seq<char> {
    collapse_from(s, false)
}

pub fn collapse_whitespace(t: &str) -> (r: String)
    ensures
        r@ == collapse_spec(t@),
{
    let s = text::chars(t);
    let mut out: Vec<char> = Vec::new();
    let mut in_run = false;
    let mut i: usize = 0;
    assert(s@.skip(0) =~= s@);
    while i < s.len()
        invariant
            i <= s@.len(),
            s@ == t@,
            out@ + collapse_from(s@.skip(i as int), in_run) == collapse_spec(t@),
        decreases s@.len() - i,
    {
        let ghost rest = s@.skip(i as int);
        assert(rest[0] == s@[i as int]);
        assert(rest.drop_first() =~= s@.skip(i + 1));
        let ghost before = out@;
        if text::space(s[i]) {
            if !in_run {
                out.push(' ');
                in_run = true;
                assert(before + (seq![' '] + collapse_from(s@.skip(i + 1), true)) =~= out@
                    + collapse_from(s@.skip(i + 1), true));
            }
        } else {
            out.push(s[i]);
            in_run = false;
            assert(before + (seq![s@[i as int]] + collapse_from(s@.skip(i + 1), false)) =~= out@
                + collapse_from(s@.skip(i + 1), false));
        }
        i = i + 1;
    }
    assert(s@.skip(i as int) =~= Seq::<char>::empty());
    assert(out@ + Seq::<char>::empty() =~= out@);
    text::string_of(out.as_slice())
}

/// Text as markup: `&`, `<` and `>` escaped.
pub open spec fn escape_spec(s: Seq<char>) -> Seq<char>
    decreases s.len(),
{
    if s.len() == 0 {
        Seq::empty()
    } else {
        escape_spec(s.drop_last()) + if s.last() == '&' {
            "&amp;"@
        } else if s.last() == '<' {
            "&lt;"@
        } else if s.last() == '>' {
            "&gt;"@
        } else {
            seq![s.last()]
        }
    }
}

pub open spec fn block_tag(t: Seq<char>) -> bool {
    t == "p"@ || t == "ul"@ || t == "ol"@ || t == "li"@
}

pub open spec fn inline_tag(t: Seq<char>) -> bool {
    t == "em"@ || t == "code"@
}

/// The description written so far, and whether it is just after a block
/// tag, where leading white space is indentation.
pub struct DescView {
    pub out: Seq<char>,
    pub at_block_edge: bool,
}

/// Opening a tag: the six the page renders are kept, every other dropped.
pub open spec fn desc_open(d: DescView, tag: Seq<char>) -> DescView {
    if block_tag(tag) {
        DescView { out: d.out + "<"@ + tag + ">"@, at_block_edge: true }
    } else if inline_tag(tag) {
        DescView { out: d.out + "<"@ + tag + ">"@, ..d }
    } else {
        d
    }
}

/// Closing a tag: a block ends without white space before its end tag, and
/// on a line of its own unless it is a list item.
pub open spec fn desc_close(d: DescView, tag: Seq<char>) -> DescView {
    if block_tag(tag) {
        DescView {
            out: text::trim_end(d.out) + "</"@ + tag + ">"@ + if tag == "li"@ {
                Seq::empty()
            } else {
                "\n"@
            },
            at_block_edge: true,
        }
    } else if inline_tag(tag) {
        DescView { out: d.out + "</"@ + tag + ">"@, ..d }
    } else {
        d
    }
}

/// Text: white space runs collapsed, none at the start of a block, escaped.
pub open spec fn desc_text(d: DescView, s: Seq<char>) -> DescView {
    let c = collapse_spec(s);
    let piece = if d.at_block_edge {
        text::trim_start(c)
    } else {
        c
    };
    if piece.len() == 0 {
        d
    } else {
        DescView { out: d.out + escape_spec(piece), at_block_edge: false }
    }
}

/// The finished description: trimmed, nothing when empty.
pub open spec fn desc_finish(d: DescView) -> Option<Seq<char>> {
    if text::trim(d.out).len() == 0 {
        None
    } else {
        Some(text::trim(d.out))
    }
}

/// Re-serialises a description as it streams past.
pub struct DescriptionWriter {
    out: Vec<char>,
    at_block_edge: bool,
}

impl View for DescriptionWriter {
    type V = DescView;

    closed spec fn view(&self) -> DescView {
        DescView { out: self.out@, at_block_edge: self.at_block_edge }
    }
}

fn push_all(out: &mut Vec<char>, s: &[char])
    ensures
        final(out)@ == old(out)@ + s@,
{
    let ghost start = out@;
    let mut i: usize = 0;
    while i < s.len()
        invariant
            i <= s@.len(),
            out@ == start + s@.take(i as int),
        decreases s@.len() - i,
    {
        out.push(s[i]);
        assert(out@ =~= start + s@.take(i + 1));
        i = i + 1;
    }
    assert(s@.take(s@.len() as int) =~= s@);
}

impl DescriptionWriter {
    pub fn new() -> (w: DescriptionWriter)
        ensures
            w@ == (DescView { out: Seq::empty(), at_block_edge: true }),
    {
        DescriptionWriter { out: Vec::new(), at_block_edge: true }
    }

    pub fn open(&mut self, tag: &str)
        ensures
            final(self)@ == desc_open(old(self)@, tag@),
    {
        let t = text::chars(tag);
        let ts = t.as_slice();
        let block = text::eq_str(ts, "p") || text::eq_str(ts, "ul") || text::eq_str(ts, "ol")
            || text::eq_str(ts, "li");
        let inline = text::eq_str(ts, "em") || text::eq_str(ts, "code");
        if block || inline {
            proof {
                reveal_strlit("<");
                reveal_strlit(">");
            }
            let ghost before = self.out@;
            self.out.push('<');
            push_all(&mut self.out, ts);
            self.out.push('>');
            assert(self.out@ =~= before + "<"@ + tag@ + ">"@);
            if block {
                self.at_block_edge = true;
            }
        }
    }

    pub fn close(&mut self, tag: &str)
        ensures
            final(self)@ == desc_close(old(self)@, tag@),
    {
        let t = text::chars(tag);
        let ts = t.as_slice();
        let block = text::eq_str(ts, "p") || text::eq_str(ts, "ul") || text::eq_str(ts, "ol")
            || text::eq_str(ts, "li");
        let inline = text::eq_str(ts, "em") || text::eq_str(ts, "code");
        proof {
            reveal_strlit("</");
            reveal_strlit(">");
            reveal_strlit("\n");
        }
        if block {
            let mut out = text::trim_end_chars(self.out.as_slice());
            let ghost trimmed = out@;
            out.push('<');
            out.push('/');
            push_all(&mut out, ts);
            out.push('>');
            if !text::eq_str(ts, "li") {
                out.push('\n');
                assert(out@ =~= trimmed + "</"@ + tag@ + ">"@ + "\n"@);
            } else {
                assert(out@ =~= trimmed + "</"@ + tag@ + ">"@ + Seq::<char>::empty());
            }
            self.out = out;
            self.at_block_edge = true;
        } else if inline {
            let ghost before = self.out@;
            self.out.push('<');
            self.out.push('/');
            push_all(&mut self.out, ts);
            self.out.push('>');
            assert(self.out@ =~= before + "</"@ + tag@ + ">"@);
        }
    }

    pub fn text(&mut self, s: &str)
        ensures
            final(self)@ == desc_text(old(self)@, s@),
    {
        let collapsed = collapse_whitespace(s);
        let c = text::chars(collapsed.as_str());
        let piece = if self.at_block_edge {
            text::trim_start_chars(c.as_slice())
        } else {
            c
        };
        if piece.len() == 0 {
            return;
        }
        let ghost start = self.out@;
        let mut i: usize = 0;
        proof {
            reveal_strlit("&amp;");
            reveal_strlit("&lt;");
            reveal_strlit("&gt;");
        }
        while i < piece.len()
            invariant
                i <= piece@.len(),
                self.out@ == start + escape_spec(piece@.take(i as int)),
            decreases piece@.len() - i,
        {
            let ch = piece[i];
            let ghost before = self.out@;
            proof {
                reveal_strlit("&amp;");
                reveal_strlit("&lt;");
                reveal_strlit("&gt;");
            }
            if ch == '&' {
                self.out.push('&');
                self.out.push('a');
                self.out.push('m');
                self.out.push('p');
                self.out.push(';');
                assert(self.out@ =~= before + "&amp;"@);
            } else if ch == '<' {
                self.out.push('&');
                self.out.push('l');
                self.out.push('t');
                self.out.push(';');
                assert(self.out@ =~= before + "&lt;"@);
            } else if ch == '>' {
                self.out.push('&');
                self.out.push('g');
                self.out.push('t');
                self.out.push(';');
                assert(self.out@ =~= before + "&gt;"@);
            } else {
                self.out.push(ch);
            }
            assert(piece@.take(i + 1).drop_last() =~= piece@.take(i as int));
            assert(piece@.take(i + 1).last() == ch);
            assert(self.out@ =~= start + escape_spec(piece@.take(i + 1)));
            i = i + 1;
        }
        assert(piece@.take(piece@.len() as int) =~= piece@);
        self.at_block_edge = false;
    }

    pub fn finish(self) -> (r: Option<String>)
        ensures
            crate::model::opt_view(r) == desc_finish(self@),
    {
        let t = text::trim_chars(self.out.as_slice());
        if t.len() == 0 {
            None
        } else {
            Some(text::string_of(t.as_slice()))
        }
    }
}

// ---------------------------------------------------------------------------
// The XML reader
// ---------------------------------------------------------------------------

#[verifier::external_type_specification]
#[verifier::external_body]
#[verifier::reject_recursive_types(R)]
pub struct ExXmlReader<R>(quick_xml::Reader<R>);

#[verifier::external_type_specification]
#[verifier::external_body]
pub struct ExBytesStart<'a>(quick_xml::events::BytesStart<'a>);

#[verifier::external_type_specification]
#[verifier::external_body]
pub struct ExXmlError(XmlError);

#[verifier::external_type_specification]
#[verifier::external_body]
#[verifier::reject_recursive_types(R)]
pub struct ExMultiGzDecoder<R>(flate2::read::MultiGzDecoder<R>);

#[verifier::external_type_specification]
#[verifier::external_body]
#[verifier::reject_recursive_types(R)]
pub struct ExBufReader<R: ?Sized>(std::io::BufReader<R>);

/// One event of the reader, with what the parser reads of it as plain
/// values: a start tag as the parser reads it and by its full name, an end
/// tag by its local and its full name, text and references as written.
pub enum XmlEvent {
    Start(StartTag, String),
    Empty(StartTag),
    End(String, String),
    Text(String),
    Ref(String),
    Eof,
    Other,
}

/// An event as the contracts speak of it; `Fail` is a read that failed.
pub enum EventView {
    Start(StartTag, Seq<char>),
    Empty(StartTag),
    End(Seq<char>, Seq<char>),
    Text(Seq<char>),
    Ref(Seq<char>),
    Eof,
    Other,
    Fail,
}

pub open spec fn event_view(r: Result<XmlEvent, XmlError>) -> EventView {
    match r {
        Err(_) => EventView::Fail,
        Ok(XmlEvent::Start(t, q)) => EventView::Start(t, q@),
        Ok(XmlEvent::Empty(t)) => EventView::Empty(t),
        Ok(XmlEvent::End(n, q)) => EventView::End(n@, q@),
        Ok(XmlEvent::Text(s)) => EventView::Text(s@),
        Ok(XmlEvent::Ref(n)) => EventView::Ref(n@),
        Ok(XmlEvent::Eof) => EventView::Eof,
        Ok(XmlEvent::Other) => EventView::Other,
    }
}

/// Why the reader stopped: the input could not be read, or it is not
/// well-formed XML; each with the reader's own description.
pub enum XmlFailure {
    Io(String),
    Syntax(String),
}

/// The event quick-xml's reader hands out as its `k`-th (from 0) over a
/// document of these bytes, read as they are or, where `gzip`, through a
/// multi-member gzip decoder and a buffer. The reader is deterministic: the
/// same bytes give the same events, whatever the machine.
pub uninterp spec fn xml_event_at(gzip: bool, bytes: Seq<u8>, k: nat) -> EventView;

/// A quick-xml reader over a document, with the document's bytes, whether
/// they are gzip, and how many events the reader has handed out.
#[verifier::reject_recursive_types(R)]
pub struct EventReader<R> {
    reader: quick_xml::Reader<R>,
    buf: Vec<u8>,
    pub gzip: Ghost<bool>,
    pub bytes: Ghost<Seq<u8>>,
    pub at: Ghost<nat>,
}

/// `quick_xml::Reader::from_reader` over plain bytes, default
/// configuration: a reader at the document's first event.
#[verifier::external_body]
fn plain_events(bytes: &[u8]) -> (r: EventReader<&[u8]>)
    ensures
        !r.gzip@,
        r.bytes@ == bytes@,
        r.at@ == 0,
{
    let reader = quick_xml::Reader::from_reader(bytes);
    EventReader { reader, buf: Vec::new(), gzip: Ghost(false), bytes: Ghost(bytes@), at: Ghost(0) }
}

/// `quick_xml::Reader::from_reader` over `flate2::read::MultiGzDecoder`
/// in a 64 KiB `std::io::BufReader`: the bytes decompressed as they are
/// read, every gzip member in turn; a reader at the first event.
#[verifier::external_body]
fn gzip_events(bytes: &[u8]) -> (r: EventReader<std::io::BufReader<flate2::read::MultiGzDecoder<&[u8]>>>)
    ensures
        r.gzip@,
        r.bytes@ == bytes@,
        r.at@ == 0,
{
    let input = std::io::BufReader::with_capacity(1 << 16, flate2::read::MultiGzDecoder::new(bytes));
    let reader = quick_xml::Reader::from_reader(input);
    EventReader { reader, buf: Vec::new(), gzip: Ghost(true), bytes: Ghost(bytes@), at: Ghost(0) }
}

/// `quick_xml::Reader::read_event_into`: the next event, each kind moved
/// into the library's enum. Claimed: it is the event at the reader's place
/// in its document (a failed read is `Fail`), and the reader moves on by
/// one event.
#[verifier::external_body]
fn next_event<R: std::io::BufRead>(events: &mut EventReader<R>) -> (r: Result<XmlEvent, XmlError>)
    ensures
        final(events).gzip == old(events).gzip,
        final(events).bytes == old(events).bytes,
        final(events).at@ == old(events).at@ + 1,
        event_view(r) == xml_event_at(old(events).gzip@, old(events).bytes@, old(events).at@),
{
    events.buf.clear();
    Ok(match events.reader.read_event_into(&mut events.buf)? {
        Event::Start(e) => XmlEvent::Start(start_tag(&e), e.name().as_ref().to_string()),
        Event::Empty(e) => XmlEvent::Empty(start_tag(&e)),
        Event::End(e) => XmlEvent::End(e.local_name().into_inner().to_string(), e.name().as_ref().to_string()),
        Event::Text(t) => XmlEvent::Text(t.to_string()),
        Event::CData(t) => XmlEvent::Text(t.to_string()),
        Event::GeneralRef(r) => XmlEvent::Ref(r.to_string()),
        Event::Eof => XmlEvent::Eof,
        _ => XmlEvent::Other,
    })
}

/// `BytesStart::local_name` and `BytesStart::attributes` (without the
/// duplicate check): the tag's local name and its attributes in order,
/// each by its full name with `normalized_value` where that could be read,
/// up to the first attribute that could not be parsed. How `next_event`
/// converts a start tag.
#[verifier::external_body]
fn start_tag(e: &quick_xml::events::BytesStart) -> StartTag {
    let mut attrs = Vec::new();
    for a in e.attributes().with_checks(false) {
        let Ok(a) = a else { break };
        let value = a.normalized_value(quick_xml::XmlVersion::Implicit1_0).ok();
        attrs.push((a.key.as_ref().to_string(), value.map(|v| v.into_owned())));
    }
    StartTag { name: e.local_name().into_inner().to_string(), attrs }
}

pub open spec fn opens(e: EventView, name: Seq<char>) -> bool {
    e matches EventView::Start(_, q) && q == name
}

pub open spec fn closes(e: EventView, name: Seq<char>) -> bool {
    e matches EventView::End(_, q) && q == name
}

pub open spec fn stops(e: EventView) -> bool {
    e is Fail || e is Eof
}

/// How many elements of this name the `n` events from `from` leave open.
pub open spec fn depth_in(g: bool, b: Seq<u8>, from: nat, n: nat, name: Seq<char>) -> int
    decreases n,
{
    if n == 0 {
        0
    } else {
        let d = depth_in(g, b, from, (n - 1) as nat, name);
        let e = xml_event_at(g, b, (from + n - 1) as nat);
        if opens(e, name) {
            d + 1
        } else if closes(e, name) {
            d - 1
        } else {
            d
        }
    }
}

/// Whether the event at `m` closes the element whose content starts at
/// `from`: an end tag of its name with none of that name left open.
pub open spec fn ends_skip(g: bool, b: Seq<u8>, from: nat, m: nat, name: Seq<char>) -> bool {
    closes(xml_event_at(g, b, m), name) && depth_in(g, b, from, (m - from) as nat, name) == 0
}

/// The events from `from` up to `m` neither stop the reader nor close the
/// element.
pub open spec fn skip_clear(g: bool, b: Seq<u8>, from: nat, m: nat, name: Seq<char>) -> bool {
    forall|j: nat|
        from <= j < m ==> !stops(#[trigger] xml_event_at(g, b, j)) && !ends_skip(g, b, from, j, name)
}

/// Skipping the element whose content starts at `from` reads up to `to`:
/// the event before `to` closes it.
pub open spec fn skipped(g: bool, b: Seq<u8>, from: nat, to: nat, name: Seq<char>) -> bool {
    from < to && ends_skip(g, b, from, (to - 1) as nat, name) && skip_clear(g, b, from, (to - 1) as nat, name)
}

/// Skipping the element meets the end of the input or a failed read first.
pub open spec fn skip_fails(g: bool, b: Seq<u8>, from: nat, name: Seq<char>) -> bool {
    exists|t: nat| from <= t && stops(#[trigger] xml_event_at(g, b, t)) && skip_clear(g, b, from, t, name)
}

proof fn lemma_skip_is_one_way(g: bool, b: Seq<u8>, from: nat, name: Seq<char>, to: nat, other: nat)
    requires
        skipped(g, b, from, to, name),
    ensures
        skipped(g, b, from, other, name) ==> other == to,
        !skip_fails(g, b, from, name),
{
    if skipped(g, b, from, other, name) && other != to {
        if other < to {
            assert(!ends_skip(g, b, from, (other - 1) as nat, name) && !stops(xml_event_at(g, b, (other - 1) as nat)));
        } else {
            assert(!ends_skip(g, b, from, (to - 1) as nat, name) && !stops(xml_event_at(g, b, (to - 1) as nat)));
        }
    }
    if skip_fails(g, b, from, name) {
        let t = choose|t: nat| from <= t && stops(#[trigger] xml_event_at(g, b, t)) && skip_clear(g, b, from, t, name);
        if t < to - 1 {
            assert(!stops(xml_event_at(g, b, t)));
        } else if t > to - 1 {
            assert(!ends_skip(g, b, from, (to - 1) as nat, name) && !stops(xml_event_at(g, b, (to - 1) as nat)));
        }
    }
}

/// `quick_xml::Reader::read_to_end_into`: the rest of the element just
/// started is read and dropped. Claimed: it reads the events after the
/// start tag until the end tag of the same name that closes it, counting
/// nested elements of that name, and fails where it meets the end of the
/// input or a failed read first.
#[verifier::external_body]
fn skip_element<R: std::io::BufRead>(events: &mut EventReader<R>, name: &String) -> (r: Result<(), XmlError>)
    ensures
        final(events).gzip == old(events).gzip,
        final(events).bytes == old(events).bytes,
        r is Ok ==> skipped(old(events).gzip@, old(events).bytes@, old(events).at@, final(events).at@, name@),
        r is Err ==> skip_fails(old(events).gzip@, old(events).bytes@, old(events).at@, name@),
{
    events.buf.clear();
    events.reader.read_to_end_into(quick_xml::name::QName(name.as_str()), &mut events.buf).map(|_| ())
}

/// `quick_xml::Reader::error_position`: where the last error was met.
#[verifier::external_body]
fn error_position<R>(reader: &quick_xml::Reader<R>) -> u64 {
    reader.error_position()
}

/// The `Display` text of a `quick_xml::Error`, told apart by whether the
/// input could not be read (the I/O error's own text) or was malformed.
#[verifier::external_body]
fn describe_xml_error(e: &XmlError) -> XmlFailure {
    match e {
        XmlError::Io(io) => XmlFailure::Io(format!("{io}")),
        other => XmlFailure::Syntax(format!("{other}")),
    }
}

/// The value of a digit in this radix (10 or 16, either case).
pub open spec fn digit_value(c: char, radix: nat) -> Option<nat> {
    if '0' <= c && c <= '9' {
        Some((c as nat - '0' as nat) as nat)
    } else if radix == 16 && 'a' <= c && c <= 'f' {
        Some((c as nat - 'a' as nat + 10) as nat)
    } else if radix == 16 && 'A' <= c && c <= 'F' {
        Some((c as nat - 'A' as nat + 10) as nat)
    } else {
        None
    }
}

/// The number these digits write in this radix; nothing where one is not
/// a digit.
pub open spec fn digits_value(s: Seq<char>, radix: nat) -> Option<nat>
    decreases s.len(),
{
    if s.len() == 0 {
        Some(0)
    } else {
        match (digits_value(s.drop_last(), radix), digit_value(s.last(), radix)) {
            (Some(h), Some(d)) => Some(h * radix + d),
            _ => None,
        }
    }
}

/// What `BytesRef::resolve_char_ref` makes of a reference named so: a `#`
/// and a decimal number, or `#x` and a hexadecimal one, of at least one
/// digit and no sign, that fits in a `u32` and is a character other than
/// NUL; nothing else resolves.
#[verifier::opaque]
pub open spec fn char_ref_of(name: Seq<char>) -> Option<char> {
    if name.len() > 0 && name[0] == '#' {
        let num = name.drop_first();
        let hex = num.len() > 0 && num[0] == 'x';
        let digits = if hex { num.drop_first() } else { num };
        match digits_value(digits, if hex { 16 } else { 10 }) {
            Some(n) => if digits.len() > 0 && 0 < n && n <= u32::MAX && (n < 0xD800 || (0xE000 <= n
                && n <= 0x10FFFF)) {
                Some(n as char)
            } else {
                None
            },
            None => None,
        }
    } else {
        None
    }
}

/// `BytesRef::resolve_char_ref` on a reference by its name: the character
/// a `#` reference (`#169`, `#x41`) stands for, nothing for an entity name
/// or a reference that does not resolve.
#[verifier::external_body]
fn char_ref(name: &str) -> (r: Option<char>)
    ensures
        r == char_ref_of(name@),
        !(name@.len() > 0 && name@[0] == '#') ==> r is None,
{
    quick_xml::events::BytesRef::new(name).resolve_char_ref().ok().flatten()
}

/// `quick_xml::escape::resolve_predefined_entity`: the five entities XML
/// predefines.
#[verifier::external_body]
fn predefined_entity(name: &str) -> (r: Option<&'static str>)
    ensures
        r matches Some(v) ==> (name@ == "lt"@ && v@ == "<"@) || (name@ == "gt"@ && v@ == ">"@) || (
        name@ == "amp"@ && v@ == "&"@) || (name@ == "apos"@ && v@ == "'"@) || (name@ == "quot"@ && v@
            == "\""@),
        r is None <==> !(name@ == "lt"@ || name@ == "gt"@ || name@ == "amp"@ || name@ == "apos"@
            || name@ == "quot"@),
{
    quick_xml::escape::resolve_predefined_entity(name)
}

/// What a reference stands for in text: the character of a character
/// reference, the text of a predefined entity, and an entity the catalogue
/// did not define kept as written, which is the honest rendering.
pub open spec fn reference_spec(name: Seq<char>) -> Seq<char> {
    match char_ref_of(name) {
        Some(c) => seq![c],
        None => if name == "lt"@ {
            "<"@
        } else if name == "gt"@ {
            ">"@
        } else if name == "amp"@ {
            "&"@
        } else if name == "apos"@ {
            "'"@
        } else if name == "quot"@ {
            "\""@
        } else {
            "&"@ + name + ";"@
        },
    }
}

pub fn reference_text(name: &str) -> (r: String)
    ensures
        r@ == reference_spec(name@),
{
    match char_ref(name) {
        Some(c) => {
            let mut s = String::new();
            text::push_char(&mut s, c);
            assert(s@ =~= seq![c]);
            s
        },
        None => match predefined_entity(name) {
            Some(v) => {
                proof {
                    reveal_strlit("lt");
                    reveal_strlit("gt");
                    reveal_strlit("amp");
                    reveal_strlit("apos");
                    reveal_strlit("quot");
                    assert("lt"@[0] == 'l' && "gt"@[0] == 'g' && "amp"@[0] == 'a' && "apos"@[0] == 'a');
                    assert("amp"@[1] == 'm' && "apos"@[1] == 'p' && "quot"@[0] == 'q');
                    assert(name@ == "lt"@ ==> name@[0] == 'l');
                    assert(name@ == "gt"@ ==> name@[0] == 'g');
                    assert(name@ == "amp"@ ==> name@[1] == 'm' && name@[0] == 'a');
                    assert(name@ == "apos"@ ==> name@[1] == 'p' && name@[0] == 'a');
                    assert(name@ == "quot"@ ==> name@[0] == 'q');
                }
                text::string_from(v)
            },
            None => {
                proof {
                    reveal_strlit("&");
                    reveal_strlit(";");
                }
                let mut s = text::string_from("&");
                text::push_str(&mut s, name);
                text::push_str(&mut s, ";");
                s
            },
        },
    }
}

pub open spec fn refresh_advice() -> Seq<char> {
    " Refresh the catalogue and try again."@
}

/// The message of a reader failure.
pub open spec fn xml_error_message(position: u64, f: XmlFailure) -> Seq<char> {
    match f {
        XmlFailure::Io(t) => "The AppStream catalogue could not be read: "@ + t@ + "."@ + refresh_advice(),
        XmlFailure::Syntax(t) => "The AppStream catalogue is not well-formed XML at byte "@ + text::decimal(
            position as nat,
        ) + ": "@ + t@ + "."@ + refresh_advice(),
    }
}

pub fn xml_error(position: u64, f: XmlFailure) -> (e: crate::model::Error)
    ensures
        e.message@ == xml_error_message(position, f),
        e.source_kind is None,
{
    let mut s = match &f {
        XmlFailure::Io(t) => {
            let mut s = text::string_from("The AppStream catalogue could not be read: ");
            text::push_str(&mut s, t.as_str());
            s
        },
        XmlFailure::Syntax(t) => {
            let mut s = text::string_from("The AppStream catalogue is not well-formed XML at byte ");
            text::push_decimal(&mut s, position);
            text::push_str(&mut s, ": ");
            text::push_str(&mut s, t.as_str());
            s
        },
    };
    text::push_str(&mut s, ".");
    text::push_str(&mut s, " Refresh the catalogue and try again.");
    crate::model::Error::new(s)
}

fn reader_error<R: std::io::BufRead>(reader: &quick_xml::Reader<R>, e: &XmlError) -> (r: crate::model::Error)
    ensures
        exists|p: u64, f: XmlFailure| r.message@ == xml_error_message(p, f),
{
    let p = error_position(reader);
    let f = describe_xml_error(e);
    let ghost fv = f;
    let r = xml_error(p, f);
    assert(r.message@ == xml_error_message(p, fv));
    r
}

/// Where reading a catalogue stands: going on with the parser's state and
/// the reader's place, at the end of the input with the parser's state, or
/// stopped by a failed read.
pub enum RunState {
    Going(super::reader::ParserView, nat),
    Done(super::reader::ParserView),
    Failed,
}

/// One turn of the reading loop: the event at the reader's place goes to
/// the parser; an element the parser skips is read past whole.
pub open spec fn run_step(g: bool, b: Seq<u8>, p: super::reader::ParserView, at: nat) -> RunState {
    match xml_event_at(g, b, at) {
        EventView::Start(t, q) => {
            let (p2, d) = super::reader::start_step(p, t);
            if d == Descend::Skip {
                if exists|to: nat| #[trigger] skipped(g, b, at + 1, to, q) {
                    RunState::Going(p2, choose|to: nat| #[trigger] skipped(g, b, at + 1, to, q))
                } else {
                    RunState::Failed
                }
            } else {
                RunState::Going(p2, at + 1)
            }
        },
        EventView::Empty(t) => RunState::Going(super::reader::empty_step(p, t), at + 1),
        EventView::End(n, _) => RunState::Going(super::reader::end_step(p, n), at + 1),
        EventView::Text(s) => RunState::Going(super::reader::text_step(p, s), at + 1),
        EventView::Ref(n) => RunState::Going(super::reader::text_step(p, reference_spec(n)), at + 1),
        EventView::Eof => RunState::Done(p),
        EventView::Other => RunState::Going(p, at + 1),
        EventView::Fail => RunState::Failed,
    }
}

/// Where `k` turns of the reading loop leave it.
pub open spec fn run(g: bool, b: Seq<u8>, p: super::reader::ParserView, at: nat, k: nat) -> RunState
    decreases k,
{
    if k == 0 {
        RunState::Going(p, at)
    } else {
        match run(g, b, p, at, (k - 1) as nat) {
            RunState::Going(q, a) => run_step(g, b, q, a),
            s => s,
        }
    }
}

/// What reading a document gives: the loop runs to the end of the input,
/// or for as many turns as a `u64` counts, and the parser then finishes.
/// `Err(None)` is a failed read; `Err(Some(m))` the parser's own refusal.
pub open spec fn read_outcome(g: bool, b: Seq<u8>, p: super::reader::ParserView, at: nat) -> Result<
    Seq<super::ComponentView>,
    Option<Seq<char>>,
> {
    let q = match run(g, b, p, at, u64::MAX as nat) {
        RunState::Going(q, _) => Some(q),
        RunState::Done(q) => Some(q),
        RunState::Failed => None,
    };
    match q {
        None => Err(None),
        Some(q) => match super::reader::finish_step(q) {
            Ok(v) => Ok(v),
            Err(m) => Err(Some(m)),
        },
    }
}

proof fn lemma_run_settles(g: bool, b: Seq<u8>, p: super::reader::ParserView, at: nat, k: nat, m: nat)
    requires
        k <= m,
        !(run(g, b, p, at, k) is Going),
    ensures
        run(g, b, p, at, m) == run(g, b, p, at, k),
    decreases m - k,
{
    if k < m {
        lemma_run_settles(g, b, p, at, k, (m - 1) as nat);
    }
}

/// Feeds every event of the reader to the parser, skipping what it says
/// to skip, until the input ends or a read fails, and finishes the parser.
#[verifier::rlimit(60)]
fn read_all<R: std::io::BufRead>(events: &mut EventReader<R>, start: Parser) -> (r: Result<
    Vec<Component>,
    crate::model::Error,
>)
    requires
        super::reader::sound(start@),
    ensures
        outcome_given(read_outcome(old(events).gzip@, old(events).bytes@, start@, old(events).at@), r),
        r matches Ok(v) ==> read_well(v@, start@.facts.origin_override),
{
    let ghost o = start@.facts.origin_override;
    let ghost g = events.gzip@;
    let ghost b = events.bytes@;
    let ghost p0 = start@;
    let ghost a0 = events.at@;
    let mut parser = start;
    // Every event consumes input, so the count only bounds the loop.
    let mut budget: u64 = u64::MAX;
    while budget > 0
        invariant_except_break
            run(g, b, p0, a0, (u64::MAX - budget) as nat) == RunState::Going(parser@, events.at@),
        invariant
            super::reader::sound(parser@),
            parser@.facts.origin_override == o,
            events.gzip@ == g,
            events.bytes@ == b,
            old(events).gzip@ == g,
            old(events).bytes@ == b,
            old(events).at@ == a0,
            start@ == p0,
            o == start@.facts.origin_override,
        ensures
            run(g, b, p0, a0, u64::MAX as nat) == RunState::Done(parser@) || (run(
                g,
                b,
                p0,
                a0,
                u64::MAX as nat,
            ) matches RunState::Going(q, _) && q == parser@),
        decreases budget,
    {
        let ghost k: nat = (u64::MAX - budget) as nat;
        let ghost before = parser@;
        let ghost at = events.at@;
        budget = budget - 1;
        assert(run(g, b, p0, a0, k + 1) == run_step(g, b, before, at));
        let ev = match next_event(events) {
            Ok(ev) => ev,
            Err(e) => {
                proof {
                    assert(xml_event_at(g, b, at) == EventView::Fail);
                    assert(run(g, b, p0, a0, k + 1) == RunState::Failed);
                    lemma_run_settles(g, b, p0, a0, k + 1, u64::MAX as nat);
                }
                let err = reader_error(&events.reader, &e);
                assert(read_outcome(g, b, p0, a0) == Err::<Seq<super::ComponentView>, Option<Seq<char>>>(None));
                return Err(err);
            },
        };
        match ev {
            XmlEvent::Start(t, q) => {
                proof {
                    super::reader::lemma_start_keeps_sound(parser@, t);
                }
                if parser.start(&t) == Descend::Skip {
                    let ghost from = events.at@;
                    match skip_element(events, &q) {
                        Ok(()) => {
                            proof {
                                lemma_skip_is_one_way(g, b, from, q@, events.at@, choose|to: nat| #[trigger] skipped(g, b, from, to, q@));
                            }
                        },
                        Err(err) => {
                            proof {
                                if exists|to: nat| #[trigger] skipped(g, b, from, to, q@) {
                                    let to = choose|to: nat| #[trigger] skipped(g, b, from, to, q@);
                                    lemma_skip_is_one_way(g, b, from, q@, to, to);
                                }
                                lemma_run_settles(g, b, p0, a0, k + 1, u64::MAX as nat);
                            }
                            return Err(reader_error(&events.reader, &err));
                        },
                    }
                }
            },
            XmlEvent::Empty(t) => {
                proof {
                    super::reader::lemma_empty_keeps_sound(parser@, t);
                }
                parser.empty(&t);
            },
            XmlEvent::End(n, _) => {
                proof {
                    super::reader::lemma_end_keeps_sound(parser@, n@);
                }
                parser.end(n.as_str());
            },
            XmlEvent::Text(s) => {
                proof {
                    super::reader::lemma_text_keeps_sound(parser@, s@);
                }
                parser.text(s.as_str());
            },
            XmlEvent::Ref(n) => {
                let s = reference_text(n.as_str());
                proof {
                    super::reader::lemma_text_keeps_sound(parser@, s@);
                }
                parser.text(s.as_str());
            },
            XmlEvent::Eof => {
                proof {
                    lemma_run_settles(g, b, p0, a0, k + 1, u64::MAX as nat);
                }
                break ;
            },
            XmlEvent::Other => {},
        }
    }
    let ghost pv = parser@;
    let r = parser.finish();
    proof {
        if r is Ok {
            let v = r->Ok_0;
            assert(super::reader::components_view(v@) == pv.out);
            assert forall|i: int| 0 <= i < v@.len() implies #[trigger] v@[i].id@.len() > 0 && v@[i].name@.len() > 0
                && (o matches Some(x) ==> v@[i].origin@ == x) by {
                assert(super::reader::components_view(v@)[i] == v@[i]@);
                assert(pv.out[i].id.len() > 0);
            }
        }
    }
    r
}

/// The result a reading outcome calls for: the components, the parser's
/// refusal as its sentence, or a failed read as the reader's description.
pub open spec fn outcome_given(
    o: Result<Seq<super::ComponentView>, Option<Seq<char>>>,
    r: Result<Vec<Component>, crate::model::Error>,
) -> bool {
    match o {
        Ok(cs) => r matches Ok(v) && super::reader::components_view(v@) == cs,
        Err(Some(m)) => r matches Err(e) && e.message@ == m,
        Err(None) => r matches Err(e) && exists|p: u64, f: XmlFailure| e.message@ == xml_error_message(p, f),
    }
}

/// What every component read has: an id, a name, and the caller's origin
/// where the caller gave one.
pub open spec fn read_well(v: Seq<Component>, origin: Option<Seq<char>>) -> bool {
    forall|i: int| 0 <= i < v.len() ==> #[trigger] v[i].id@.len() > 0 && v[i].name@.len() > 0 && (origin matches Some(
        o,
    ) ==> v[i].origin@ == o)
}

/// Parse one file's bytes, gzip or plain, into its components. The gzip
/// case decompresses as it reads, so the plain form of a large catalogue
/// is never in memory at once. `icons` is the catalogue's icon directory
/// with the files in it; `origin`, where given, wins over the file's.
pub fn parse(bytes: &[u8], icons: Option<IconFiles>, origin: Option<&str>) -> (r: Result<
    Vec<Component>,
    crate::model::Error,
>)
    ensures
        outcome_given(catalogue_outcome(bytes@, super::reader::icons_view(icons), origin_view(origin)), r),
        r matches Err(e) ==> e.message@ == super::reader::truncated_message() || exists|p: u64, f: XmlFailure|
            e.message@ == xml_error_message(p, f),
        r matches Ok(v) ==> read_well(v@, origin_view(origin)),
{
    proof {
        super::reader::lemma_new_is_sound(super::reader::icons_view(icons), origin_view(origin));
    }
    let parser = Parser::new(
        icons,
        match origin {
            Some(o) => Some(text::string_from(o)),
            None => None,
        },
    );
    if bytes.len() >= 2 && bytes[0] == 0x1f && bytes[1] == 0x8b {
        // MultiGzDecoder rather than GzDecoder: a catalogue written in
        // several gzip members (some generators append) is still one file.
        let mut events = gzip_events(bytes);
        read_all(&mut events, parser)
    } else {
        let mut events = plain_events(bytes);
        read_all(&mut events, parser)
    }
}

pub open spec fn origin_view(origin: Option<&str>) -> Option<Seq<char>> {
    match origin {
        Some(o) => Some(o@),
        None => None,
    }
}

/// Whether the bytes begin as a gzip stream does.
pub open spec fn is_gzip(bytes: Seq<u8>) -> bool {
    bytes.len() >= 2 && bytes[0] == 0x1f && bytes[1] == 0x8b
}

/// What a catalogue file's bytes read as: the document's events, through
/// the gzip decoder where the bytes are gzip, given in order to a new
/// parser for these icons and this origin.
pub open spec fn catalogue_outcome(bytes: Seq<u8>, icons: Option<super::reader::IconFilesView>, origin: Option<Seq<char>>) -> Result<
    Seq<super::ComponentView>,
    Option<Seq<char>>,
> {
    read_outcome(is_gzip(bytes), bytes, super::reader::parser_new(icons, origin), 0)
}

/// Every error a catalogue read can end in says, last, to refresh the
/// catalogue and try again.
pub proof fn lemma_errors_say_refresh(position: u64, f: XmlFailure)
    ensures
        refresh_advice().is_suffix_of(xml_error_message(position, f)),
        refresh_advice().is_suffix_of(super::reader::truncated_message()),
{
    let m = xml_error_message(position, f);
    assert(m.subrange(m.len() - refresh_advice().len(), m.len() as int) =~= refresh_advice());
    let t = super::reader::truncated_message();
    reveal_strlit(" Refresh the catalogue and try again.");
    reveal_strlit(
        "The AppStream catalogue ends before its root element is closed, so it is probably truncated. Refresh the catalogue and try again.",
    );
    assert(t.subrange(t.len() - refresh_advice().len(), t.len() as int) =~= refresh_advice());
}

} // verus!
