//! The reading state: what the parser holds between events, and how each
//! element it reads adds to the component being drafted.
//!
//! Each step here takes what the XML reader handed out as plain values, so
//! every step is stated exactly over the views below.

use vstd::prelude::*;
use crate::text;
use crate::model::{Picture, PictureView, Screenshot};
use super::{Component, ComponentView, ShotView, shot_view};

verus! {

// ---------------------------------------------------------------------------
// Icon files on disk
// ---------------------------------------------------------------------------

/// What a catalogue's icon directory holds: the directory, the names of the
/// directories right under it, and the files under it as paths relative to
/// it (`archlinux-arch-extra/64x64/a.png`, or `64x64/a.png` for a Flatpak
/// remote's).
pub struct IconFiles {
    root: Vec<char>,
    dirs: Vec<Vec<char>>,
    files: Vec<Vec<char>>,
}

pub struct IconFilesView {
    pub root: Seq<char>,
    pub dirs: Seq<Seq<char>>,
    pub files: Seq<Seq<char>>,
}

impl View for IconFiles {
    type V = IconFilesView;

    closed spec fn view(&self) -> IconFilesView {
        IconFilesView { root: self.root@, dirs: text::views(self.dirs@), files: text::views(self.files@) }
    }
}

impl IconFiles {
    pub fn new(root: String, dirs: Vec<String>, files: Vec<String>) -> (f: IconFiles)
        ensures
            f@.root == root@,
            f@.dirs == crate::model::strings_view(dirs@),
            f@.files == crate::model::strings_view(files@),
    {
        IconFiles {
            root: text::chars(root.as_str()),
            dirs: crate::model::strings_chars(&dirs),
            files: crate::model::strings_chars(&files),
        }
    }
}

/// A catalogue is data from the network; an icon name with a directory in
/// it would make the store look up, and then serve, a file the catalogue
/// chose. Only a bare file name is looked up.
pub open spec fn plain_name(n: Seq<char>) -> bool {
    n.len() > 0 && !n.contains('/') && n != "."@ && n != ".."@
}

/// Distribution catalogues nest the origin under the icon directory;
/// Flatpak's per-remote directory does not. Whether the origin's directory
/// is there tells them apart.
pub open spec fn icon_prefix(origin: Seq<char>, dirs: Seq<Seq<char>>) -> Seq<char> {
    if origin.len() > 0 && dirs.contains(origin) {
        origin + "/"@
    } else {
        Seq::empty()
    }
}

pub open spec fn sized_path(prefix: Seq<char>, size: Seq<char>, name: Seq<char>) -> Seq<char> {
    prefix + size + "/"@ + name
}

/// Among the cached icons with a bare name whose file is in this size's
/// directory, the one declared widest; the first of equal width.
pub open spec fn best_at(
    cached: Seq<(u32, Seq<char>)>,
    prefix: Seq<char>,
    size: Seq<char>,
    files: Seq<Seq<char>>,
) -> Option<(u32, Seq<char>)>
    decreases cached.len(),
{
    if cached.len() == 0 {
        None
    } else {
        let best = best_at(cached.drop_last(), prefix, size, files);
        let c = cached.last();
        if plain_name(c.1) && files.contains(sized_path(prefix, size, c.1)) && (match best {
            None => true,
            Some(b) => c.0 > b.0,
        }) {
            Some(c)
        } else {
            best
        }
    }
}

/// The largest size directory holding one of the declared names, names
/// tried widest declared first: the file, relative to the icon directory.
/// The declared sizes are what the generator meant to write, not what is
/// on disk, so the answer comes from the files.
pub open spec fn resolve_spec(cached: Seq<(u32, Seq<char>)>, prefix: Seq<char>, files: Seq<Seq<char>>) -> Option<
    Seq<char>,
> {
    match best_at(cached, prefix, "128x128"@, files) {
        Some(c) => Some(sized_path(prefix, "128x128"@, c.1)),
        None => match best_at(cached, prefix, "64x64"@, files) {
            Some(c) => Some(sized_path(prefix, "64x64"@, c.1)),
            None => match best_at(cached, prefix, "48x48"@, files) {
                Some(c) => Some(sized_path(prefix, "48x48"@, c.1)),
                None => None,
            },
        },
    }
}

/// The icon a component shows: the largest cached icon on disk, else the
/// widest remote one, else none. A file that is not there is never
/// returned, so the page never draws a broken image.
pub open spec fn pick_spec(
    cached: Seq<(u32, Seq<char>)>,
    remote: Option<(u32, Seq<char>)>,
    icons: Option<IconFilesView>,
    origin: Seq<char>,
) -> Option<PictureView> {
    let fallback = match remote {
        Some(r) => Some(PictureView::Url(r.1)),
        None => None,
    };
    match icons {
        Some(f) => match resolve_spec(cached, icon_prefix(origin, f.dirs), f.files) {
            Some(rel) => Some(PictureView::File(text::path_join(f.root, rel))),
            None => fallback,
        },
        None => fallback,
    }
}

fn contains_chars(list: &Vec<Vec<char>>, item: &[char]) -> (r: bool)
    ensures
        r == text::views(list@).contains(item@),
{
    let mut i: usize = 0;
    while i < list.len()
        invariant
            i <= list@.len(),
            forall|j: int| 0 <= j < i ==> list@[j]@ != item@,
        decreases list@.len() - i,
    {
        if text::eq(list[i].as_slice(), item) {
            assert(text::views(list@)[i as int] == item@);
            return true;
        }
        i = i + 1;
    }
    proof {
        if text::views(list@).contains(item@) {
            let j = choose|j: int| 0 <= j < text::views(list@).len() && text::views(list@)[j] == item@;
            assert(list@[j]@ == item@);
        }
    }
    false
}

fn plain_name_exec(n: &[char]) -> (r: bool)
    ensures
        r == plain_name(n@),
{
    proof {
        reveal_strlit(".");
        reveal_strlit("..");
    }
    if n.len() == 0 || text::has_char(n, '/') {
        return false;
    }
    if n.len() == 1 && n[0] == '.' {
        assert(n@ =~= "."@);
        return false;
    }
    if n.len() == 2 && n[0] == '.' && n[1] == '.' {
        assert(n@ =~= ".."@);
        return false;
    }
    assert(n@ != "."@ && n@ != ".."@) by {
        if n@ == "."@ {
            assert(n@.len() == 1 && n@[0] == '.');
        }
        if n@ == ".."@ {
            assert(n@.len() == 2 && n@[0] == '.' && n@[1] == '.');
        }
    }
    true
}

fn sized_path_chars(prefix: &[char], size: &str, name: &[char]) -> (r: Vec<char>)
    ensures
        r@ == sized_path(prefix@, size@, name@),
{
    let mut s = text::string_of(prefix);
    text::push_str(&mut s, size);
    text::push_str(&mut s, "/");
    text::push_chars(&mut s, name);
    text::chars(s.as_str())
}

fn best_at_exec(cached: &Vec<(u32, String)>, prefix: &[char], size: &str, files: &Vec<Vec<char>>) -> (r: Option<usize>)
    ensures
        match r {
            Some(b) => b < cached@.len() && best_at(cached_view(cached@), prefix@, size@, text::views(files@))
                == Some(cached_view(cached@)[b as int]),
            None => best_at(cached_view(cached@), prefix@, size@, text::views(files@)) is None,
        },
{
    let mut best: Option<usize> = None;
    let mut i: usize = 0;
    while i < cached.len()
        invariant
            i <= cached@.len(),
            match best {
                Some(b) => b < i && best_at(cached_view(cached@).take(i as int), prefix@, size@, text::views(files@))
                    == Some(cached_view(cached@)[b as int]),
                None => best_at(cached_view(cached@).take(i as int), prefix@, size@, text::views(files@)) is None,
            },
        decreases cached@.len() - i,
    {
        let ghost cv = cached_view(cached@);
        assert(cv.take(i + 1).drop_last() =~= cv.take(i as int));
        let nc = text::chars(cached[i].1.as_str());
        if plain_name_exec(nc.as_slice()) {
            let path = sized_path_chars(prefix, size, nc.as_slice());
            if contains_chars(files, path.as_slice()) {
                let wider = match best {
                    None => true,
                    Some(b) => cached[i].0 > cached[b].0,
                };
                if wider {
                    best = Some(i);
                }
            }
        }
        i = i + 1;
    }
    assert(cached_view(cached@).take(cached@.len() as int) =~= cached_view(cached@));
    best
}

/// The icon a component shows, chosen from what its catalogue entry lists.
pub fn pick_icon(
    cached: &Vec<(u32, String)>,
    remote: &Option<(u32, String)>,
    icons: Option<&IconFiles>,
    origin: &str,
) -> (r: Option<Picture>)
    ensures
        crate::model::opt_picture(r) == pick_spec(
            cached_view(cached@),
            remote_view(*remote),
            match icons {
                Some(f) => Some(f@),
                None => None,
            },
            origin@,
        ),
{
    let fallback = match remote {
        Some(r) => Some(Picture::Url(r.1.clone())),
        None => None,
    };
    let files = match icons {
        Some(f) => f,
        None => return fallback,
    };
    let oc = text::chars(origin);
    proof {
        reveal_strlit("/");
    }
    let prefix: Vec<char> = if oc.len() > 0 && contains_chars(&files.dirs, oc.as_slice()) {
        let mut p = text::copy_chars(oc.as_slice());
        p.push('/');
        assert(p@ =~= origin@ + "/"@);
        p
    } else {
        assert(Seq::<char>::empty() == icon_prefix(origin@, files@.dirs));
        Vec::new()
    };
    assert(prefix@ == icon_prefix(origin@, files@.dirs));
    let found = match best_at_exec(cached, prefix.as_slice(), "128x128", &files.files) {
        Some(b) => Some((b, "128x128")),
        None => match best_at_exec(cached, prefix.as_slice(), "64x64", &files.files) {
            Some(b) => Some((b, "64x64")),
            None => match best_at_exec(cached, prefix.as_slice(), "48x48", &files.files) {
                Some(b) => Some((b, "48x48")),
                None => None,
            },
        },
    };
    match found {
        Some((b, size)) => {
            let nc = text::chars(cached[b].1.as_str());
            let rel = sized_path_chars(prefix.as_slice(), size, nc.as_slice());
            let full = text::path_join_chars(files.root.as_slice(), rel.as_slice());
            Some(Picture::File(text::string_of(full.as_slice())))
        },
        None => fallback,
    }
}

pub open spec fn icons_view(i: Option<IconFiles>) -> Option<IconFilesView> {
    match i {
        Some(f) => Some(f@),
        None => None,
    }
}

pub open spec fn cached_view(c: Seq<(u32, String)>) -> Seq<(u32, Seq<char>)> {
    c.map_values(|p: (u32, String)| (p.0, p.1@))
}

pub open spec fn remote_view(r: Option<(u32, String)>) -> Option<(u32, Seq<char>)> {
    match r {
        Some(p) => Some((p.0, p.1@)),
        None => None,
    }
}

// ---------------------------------------------------------------------------
// Screenshots
// ---------------------------------------------------------------------------

/// One `<image>` of a screenshot: its address, made absolute, and its size.
pub struct ImageDraft {
    pub url: String,
    pub width: Option<u32>,
    pub height: Option<u32>,
}

pub struct ImageView {
    pub url: Seq<char>,
    pub width: Option<u32>,
    pub height: Option<u32>,
}

impl View for ImageDraft {
    type V = ImageView;

    open spec fn view(&self) -> ImageView {
        ImageView { url: self.url@, width: self.width, height: self.height }
    }
}

/// A screenshot being read: whether it is the default one, its caption,
/// its source image and its thumbnails.
pub struct ShotDraft {
    pub default: bool,
    pub caption: Option<String>,
    pub source: Option<ImageDraft>,
    pub thumbnails: Vec<ImageDraft>,
}

pub struct ShotDraftView {
    pub default: bool,
    pub caption: Option<Seq<char>>,
    pub source: Option<ImageView>,
    pub thumbnails: Seq<ImageView>,
}

pub open spec fn images_view(v: Seq<ImageDraft>) -> Seq<ImageView> {
    v.map_values(|i: ImageDraft| i@)
}

impl View for ShotDraft {
    type V = ShotDraftView;

    open spec fn view(&self) -> ShotDraftView {
        ShotDraftView {
            default: self.default,
            caption: crate::model::opt_view(self.caption),
            source: match self.source {
                Some(i) => Some(i@),
                None => None,
            },
            thumbnails: images_view(self.thumbnails@),
        }
    }
}

pub open spec fn width_or_zero(i: ImageView) -> u32 {
    match i.width {
        Some(w) => w,
        None => 0,
    }
}

/// The widest thumbnail; the last of equal width, as `max_by_key` picks.
pub open spec fn largest(th: Seq<ImageView>) -> Option<ImageView>
    decreases th.len(),
{
    if th.len() == 0 {
        None
    } else {
        match largest(th.drop_last()) {
            None => Some(th.last()),
            Some(b) => if width_or_zero(th.last()) >= width_or_zero(b) {
                Some(th.last())
            } else {
                Some(b)
            },
        }
    }
}

/// The screenshot a draft makes: the source image in the viewer and the
/// widest thumbnail in rails; without a source the widest thumbnail is the
/// image; without either there is no screenshot.
pub open spec fn shot_finish(s: ShotDraftView) -> Option<ShotView> {
    let l = largest(s.thumbnails);
    match s.source {
        Some(src) => Some(ShotView {
            image: PictureView::Url(src.url),
            thumbnail: match l {
                Some(t) => Some(PictureView::Url(t.url)),
                None => None,
            },
            caption: s.caption,
            width: src.width,
            height: src.height,
        }),
        None => match l {
            Some(t) => Some(ShotView {
                image: PictureView::Url(t.url),
                thumbnail: None,
                caption: s.caption,
                width: t.width,
                height: t.height,
            }),
            None => None,
        },
    }
}

impl ShotDraft {
    pub fn new(default: bool) -> (s: ShotDraft)
        ensures
            s@ == (ShotDraftView { default, caption: None, source: None, thumbnails: Seq::empty() }),
    {
        let s = ShotDraft { default, caption: None, source: None, thumbnails: Vec::new() };
        assert(images_view(s.thumbnails@) =~= Seq::<ImageView>::empty());
        s
    }

    pub fn finish(self) -> (r: Option<Screenshot>)
        ensures
            match r {
                Some(s) => shot_finish(self@) == Some(shot_view(s)),
                None => shot_finish(self@) is None,
            },
    {
        let ghost tv = images_view(self.thumbnails@);
        let mut best: Option<usize> = None;
        let mut i: usize = 0;
        while i < self.thumbnails.len()
            invariant
                i <= self.thumbnails@.len(),
                tv == images_view(self.thumbnails@),
                match best {
                    Some(b) => b < i && largest(tv.take(i as int)) == Some(tv[b as int]),
                    None => largest(tv.take(i as int)) is None && i == 0,
                },
            decreases self.thumbnails@.len() - i,
        {
            assert(tv.take(i + 1).drop_last() =~= tv.take(i as int));
            assert(tv.take(i + 1).last() == tv[i as int]);
            let w = match self.thumbnails[i].width {
                Some(w) => w,
                None => 0,
            };
            match best {
                None => {
                    best = Some(i);
                },
                Some(b) => {
                    let bw = match self.thumbnails[b].width {
                        Some(x) => x,
                        None => 0,
                    };
                    if w >= bw {
                        best = Some(i);
                    }
                },
            }
            i = i + 1;
        }
        assert(tv.take(self.thumbnails@.len() as int) =~= tv);
        let thumb: Option<&ImageDraft> = match best {
            Some(b) => Some(&self.thumbnails[b]),
            None => None,
        };
        match &self.source {
            Some(src) => Some(Screenshot {
                image: Picture::Url(src.url.clone()),
                thumbnail: match thumb {
                    Some(t) => Some(Picture::Url(t.url.clone())),
                    None => None,
                },
                caption: self.caption,
                width: src.width,
                height: src.height,
            }),
            None => match thumb {
                Some(t) => Some(Screenshot {
                    image: Picture::Url(t.url.clone()),
                    thumbnail: None,
                    caption: self.caption,
                    width: t.width,
                    height: t.height,
                }),
                None => None,
            },
        }
    }
}


// ---------------------------------------------------------------------------
// The file and the component being drafted
// ---------------------------------------------------------------------------

/// What the file says about itself, applied to every component in it.
pub struct FileFacts {
    /// The caller's origin wins over the file's, because the caller knows
    /// which Flatpak remote a file belongs to and the file may not.
    pub origin_override: Option<String>,
    pub origin: String,
    pub media_base: Option<String>,
    pub icons: Option<IconFiles>,
}

pub struct FactsView {
    pub origin_override: Option<Seq<char>>,
    pub origin: Seq<char>,
    pub media_base: Option<Seq<char>>,
    pub icons: Option<IconFilesView>,
}

impl View for FileFacts {
    type V = FactsView;

    open spec fn view(&self) -> FactsView {
        FactsView {
            origin_override: crate::model::opt_view(self.origin_override),
            origin: self.origin@,
            media_base: crate::model::opt_view(self.media_base),
            icons: match self.icons {
                Some(f) => Some(f@),
                None => None,
            },
        }
    }
}

/// The origin and media base once the root element has been read (or
/// before, with neither attribute).
pub open spec fn settle(f: FactsView, file_origin: Option<Seq<char>>, media_base: Option<Seq<char>>) -> FactsView {
    FactsView {
        origin: match f.origin_override {
            Some(o) => o,
            None => match file_origin {
                Some(o) => o,
                None => Seq::empty(),
            },
        },
        media_base: match media_base {
            Some(b) => if text::trim(b).len() > 0 {
                Some(b)
            } else {
                None
            },
            None => None,
        },
        ..f
    }
}

pub open spec fn facts_new(icons: Option<IconFilesView>, origin: Option<Seq<char>>) -> FactsView {
    settle(FactsView { origin_override: origin, origin: Seq::empty(), media_base: None, icons }, None, None)
}

impl FileFacts {
    pub fn new(icons: Option<IconFiles>, origin: Option<String>) -> (f: FileFacts)
        ensures
            f@ == facts_new(
                match icons {
                    Some(i) => Some(i@),
                    None => None,
                },
                crate::model::opt_view(origin),
            ),
    {
        let mut f = FileFacts { origin_override: origin, origin: String::new(), media_base: None, icons };
        f.settle(None, None);
        f
    }

    pub fn settle(&mut self, file_origin: Option<String>, media_base: Option<String>)
        ensures
            final(self)@ == settle(old(self)@, crate::model::opt_view(file_origin), crate::model::opt_view(media_base)),
    {
        self.origin = match &self.origin_override {
            Some(o) => o.clone(),
            None => match file_origin {
                Some(o) => o,
                None => String::new(),
            },
        };
        self.media_base = match media_base {
            Some(b) => {
                let c = text::chars(b.as_str());
                if text::trim_chars(c.as_slice()).len() > 0 {
                    Some(b)
                } else {
                    None
                }
            },
            None => None,
        };
    }
}

/// A component being read, with what is settled only at its end: its icons,
/// the two forms of its developer, its screenshots with which of them is
/// the default, the screenshot being read and the newest release so far.
pub struct Draft {
    pub component: Component,
    pub cached_icons: Vec<(u32, String)>,
    /// The widest remote icon, already made absolute.
    pub remote_icon: Option<(u32, String)>,
    /// `<developer><name>` is the current form; `<developer_name>` the one
    /// it replaced. Catalogues carry both for a while; the current one wins.
    pub developer: Option<String>,
    pub developer_name: Option<String>,
    pub shots: Vec<Screenshot>,
    pub defaults: Vec<bool>,
    pub shot: Option<ShotDraft>,
    pub release: Option<(String, Option<i64>)>,
}

pub struct DraftView {
    pub component: ComponentView,
    pub cached_icons: Seq<(u32, Seq<char>)>,
    pub remote_icon: Option<(u32, Seq<char>)>,
    pub developer: Option<Seq<char>>,
    pub developer_name: Option<Seq<char>>,
    pub shots: Seq<ShotView>,
    pub defaults: Seq<bool>,
    pub shot: Option<ShotDraftView>,
    pub release: Option<(Seq<char>, Option<i64>)>,
}

pub open spec fn shots_view(v: Seq<Screenshot>) -> Seq<ShotView> {
    v.map_values(|s: Screenshot| shot_view(s))
}

impl View for Draft {
    type V = DraftView;

    open spec fn view(&self) -> DraftView {
        DraftView {
            component: self.component@,
            cached_icons: cached_view(self.cached_icons@),
            remote_icon: remote_view(self.remote_icon),
            developer: crate::model::opt_view(self.developer),
            developer_name: crate::model::opt_view(self.developer_name),
            shots: shots_view(self.shots@),
            defaults: self.defaults@,
            shot: match self.shot {
                Some(s) => Some(s@),
                None => None,
            },
            release: super::release_view(self.release),
        }
    }
}

/// Whether a release with this timestamp is newer than the best so far: a
/// dated one beats an undated one, a later date an earlier one, and among
/// undated ones the first in the file stays.
pub open spec fn newer(best: Option<(Seq<char>, Option<i64>)>, ts: Option<i64>) -> bool {
    match best {
        None => true,
        Some((_, Some(b))) => match ts {
            Some(t) => t > b,
            None => false,
        },
        Some((_, None)) => ts is Some,
    }
}

pub open spec fn draft_note_release(d: DraftView, version: Seq<char>, ts: Option<i64>) -> DraftView {
    if newer(d.release, ts) {
        DraftView { release: Some((version, ts)), ..d }
    } else {
        d
    }
}

/// The position of the screenshot marked as the default, the first such.
pub open spec fn first_default(shots: Seq<ShotView>, defaults: Seq<bool>) -> Option<int> {
    let n = if shots.len() < defaults.len() {
        shots.len()
    } else {
        defaults.len()
    };
    super::first_where(n, |i: int| defaults[i])
}

/// The screenshots with the default one moved first: the page's backdrop
/// is the first.
pub open spec fn default_first(shots: Seq<ShotView>, at: Option<int>) -> Seq<ShotView> {
    match at {
        Some(i) => seq![shots[i]] + shots.remove(i),
        None => shots,
    }
}

/// The component a finished draft makes: none without an id; its name
/// falls back to the id; the current developer form wins; its icon is
/// picked; the default screenshot goes first.
pub open spec fn draft_finish(d: DraftView, facts: FactsView) -> Option<ComponentView> {
    if d.component.id.len() == 0 {
        None
    } else {
        Some(ComponentView {
            name: if d.component.name.len() == 0 {
                d.component.id
            } else {
                d.component.name
            },
            developer: if d.developer is Some {
                d.developer
            } else {
                d.developer_name
            },
            icon: pick_spec(d.cached_icons, d.remote_icon, facts.icons, facts.origin),
            screenshots: default_first(d.shots, first_default(d.shots, d.defaults)),
            latest_release: d.release,
            ..d.component
        })
    }
}

impl Draft {
    pub fn note_release(&mut self, version: String, timestamp: Option<i64>)
        ensures
            final(self)@ == draft_note_release(old(self)@, version@, timestamp),
    {
        let newer = match &self.release {
            None => true,
            Some((_, Some(best))) => match timestamp {
                Some(t) => t > *best,
                None => false,
            },
            Some((_, None)) => timestamp.is_some(),
        };
        if newer {
            self.release = Some((version, timestamp));
        }
    }

    pub fn finish(self, facts: &FileFacts) -> (r: Option<Component>)
        ensures
            match r {
                Some(c) => draft_finish(self@, facts@) == Some(c@),
                None => draft_finish(self@, facts@) is None,
            },
    {
        let ghost d = self@;
        let mut component = self.component;
        if text::chars(component.id.as_str()).len() == 0 {
            return None;
        }
        if text::chars(component.name.as_str()).len() == 0 {
            component.name = component.id.clone();
        }
        component.developer = match self.developer {
            Some(x) => Some(x),
            None => self.developer_name,
        };
        component.icon = pick_icon(
            &self.cached_icons,
            &self.remote_icon,
            match &facts.icons {
                Some(f) => Some(f),
                None => None,
            },
            facts.origin.as_str(),
        );
        let mut shots = self.shots;
        let defaults = self.defaults;
        let n = if shots.len() < defaults.len() {
            shots.len()
        } else {
            defaults.len()
        };
        let ghost p = |i: int| defaults@[i];
        let mut i: usize = 0;
        let mut at: Option<usize> = None;
        while i < n
            invariant_except_break
                i <= n,
                at is None,
                forall|j: int| 0 <= j < i ==> !defaults@[j],
            invariant
                n <= shots@.len(),
                n <= defaults@.len(),
            ensures
                match at {
                    Some(k) => k < n && defaults@[k as int] && forall|j: int| 0 <= j < k ==> !defaults@[j],
                    None => forall|j: int| 0 <= j < n ==> !defaults@[j],
                },
            decreases n - i,
        {
            if defaults[i] {
                at = Some(i);
                break;
            }
            i = i + 1;
        }
        proof {
            super::lemma_first_where(n as nat, p);
        }
        let ghost sv = shots_view(shots@);
        match at {
            Some(k) => {
                assert(first_default(d.shots, d.defaults) == Some(k as int)) by {
                    assert(p(k as int));
                    assert(forall|j: int| 0 <= j < k ==> !#[trigger] p(j));
                }
                let s = shots.remove(k);
                shots.insert(0, s);
                assert(shots_view(shots@) =~= seq![sv[k as int]] + sv.remove(k as int));
            },
            None => {
                assert(first_default(d.shots, d.defaults) is None) by {
                    assert(forall|j: int| 0 <= j < n ==> !#[trigger] p(j));
                }
            },
        }
        component.screenshots = shots;
        component.latest_release = self.release;
        Some(component)
    }
}

// ---------------------------------------------------------------------------
// The elements the parser descends into
// ---------------------------------------------------------------------------

/// The elements the parser reads; anything else is skipped whole.
#[derive(Clone, Copy, Debug, PartialEq, Eq, Structural)]
pub enum Tag {
    Components,
    Component,
    Id,
    Pkgname,
    Bundle,
    Name,
    Summary,
    Description,
    Developer,
    DeveloperName,
    ProjectLicense,
    Url,
    Categories,
    Category,
    Keywords,
    Keyword,
    Icon,
    Screenshots,
    Screenshot,
    Image,
    Caption,
    Releases,
    Release,
    Other,
}

pub open spec fn tag_of(n: Seq<char>) -> Tag {
    if n == "components"@ {
        Tag::Components
    } else if n == "component"@ {
        Tag::Component
    } else if n == "id"@ {
        Tag::Id
    } else if n == "pkgname"@ {
        Tag::Pkgname
    } else if n == "bundle"@ {
        Tag::Bundle
    } else if n == "name"@ {
        Tag::Name
    } else if n == "summary"@ {
        Tag::Summary
    } else if n == "description"@ {
        Tag::Description
    } else if n == "developer"@ {
        Tag::Developer
    } else if n == "developer_name"@ {
        Tag::DeveloperName
    } else if n == "project_license"@ {
        Tag::ProjectLicense
    } else if n == "url"@ {
        Tag::Url
    } else if n == "categories"@ {
        Tag::Categories
    } else if n == "category"@ {
        Tag::Category
    } else if n == "keywords"@ {
        Tag::Keywords
    } else if n == "keyword"@ {
        Tag::Keyword
    } else if n == "icon"@ {
        Tag::Icon
    } else if n == "screenshots"@ {
        Tag::Screenshots
    } else if n == "screenshot"@ {
        Tag::Screenshot
    } else if n == "image"@ {
        Tag::Image
    } else if n == "caption"@ {
        Tag::Caption
    } else if n == "releases"@ {
        Tag::Releases
    } else if n == "release"@ {
        Tag::Release
    } else {
        Tag::Other
    }
}

pub fn tag(name: &str) -> (t: Tag)
    ensures
        t == tag_of(name@),
{
    let c = text::chars(name);
    let n = c.as_slice();
    if text::eq_str(n, "components") {
        Tag::Components
    } else if text::eq_str(n, "component") {
        Tag::Component
    } else if text::eq_str(n, "id") {
        Tag::Id
    } else if text::eq_str(n, "pkgname") {
        Tag::Pkgname
    } else if text::eq_str(n, "bundle") {
        Tag::Bundle
    } else if text::eq_str(n, "name") {
        Tag::Name
    } else if text::eq_str(n, "summary") {
        Tag::Summary
    } else if text::eq_str(n, "description") {
        Tag::Description
    } else if text::eq_str(n, "developer") {
        Tag::Developer
    } else if text::eq_str(n, "developer_name") {
        Tag::DeveloperName
    } else if text::eq_str(n, "project_license") {
        Tag::ProjectLicense
    } else if text::eq_str(n, "url") {
        Tag::Url
    } else if text::eq_str(n, "categories") {
        Tag::Categories
    } else if text::eq_str(n, "category") {
        Tag::Category
    } else if text::eq_str(n, "keywords") {
        Tag::Keywords
    } else if text::eq_str(n, "keyword") {
        Tag::Keyword
    } else if text::eq_str(n, "icon") {
        Tag::Icon
    } else if text::eq_str(n, "screenshots") {
        Tag::Screenshots
    } else if text::eq_str(n, "screenshot") {
        Tag::Screenshot
    } else if text::eq_str(n, "image") {
        Tag::Image
    } else if text::eq_str(n, "caption") {
        Tag::Caption
    } else if text::eq_str(n, "releases") {
        Tag::Releases
    } else if text::eq_str(n, "release") {
        Tag::Release
    } else {
        Tag::Other
    }
}

/// Whether the reader goes into an element or skips it whole.
#[derive(Clone, Copy, Debug, PartialEq, Eq, Structural)]
pub enum Descend {
    Into,
    Skip,
}

/// A cached icon is a file of the catalogue's icon directory; a remote one
/// an address.
#[derive(Clone, Copy, Debug, PartialEq, Eq, Structural)]
pub enum IconKind {
    Cached,
    Remote,
}

#[derive(Clone, Copy, Debug, PartialEq, Eq, Structural)]
pub enum ImageKind {
    Source,
    Thumbnail,
}

// ---------------------------------------------------------------------------
// What the end of an element adds to the draft
// ---------------------------------------------------------------------------

/// The end of a `<screenshot>`: the screenshot it makes, if any, joins the
/// list with whether it is the default.
pub open spec fn draft_end_screenshot(d: DraftView) -> DraftView {
    match d.shot {
        None => d,
        Some(s) => match shot_finish(s) {
            Some(v) => DraftView {
                shot: None,
                shots: d.shots.push(v),
                defaults: d.defaults.push(s.default),
                ..d
            },
            None => DraftView { shot: None, ..d },
        },
    }
}

/// The end of an `<icon>`: a cached one is kept by width and file name; a
/// remote one is kept if it is wider than the one so far and can be made
/// absolute.
pub open spec fn draft_end_icon(
    d: DraftView,
    icon: Option<(IconKind, u32)>,
    value: Seq<char>,
    base: Option<Seq<char>>,
) -> DraftView {
    match icon {
        Some((kind, width)) => if value.len() == 0 {
            d
        } else {
            match kind {
                IconKind::Cached => DraftView { cached_icons: d.cached_icons.push((width, value)), ..d },
                IconKind::Remote => match super::parser::absolute_spec(value, base) {
                    Some(url) => if (match d.remote_icon {
                        None => true,
                        Some(r) => width > r.0,
                    }) {
                        DraftView { remote_icon: Some((width, url)), ..d }
                    } else {
                        d
                    },
                    None => d,
                },
            }
        },
        None => d,
    }
}

/// The end of an `<image>`: the screenshot being read gets it as its source
/// or as one more thumbnail, where its address can be made absolute.
pub open spec fn draft_end_image(
    d: DraftView,
    image: Option<(ImageKind, Option<u32>, Option<u32>)>,
    value: Seq<char>,
    base: Option<Seq<char>>,
) -> DraftView {
    match image {
        Some((kind, w, h)) => match d.shot {
            Some(s) => match super::parser::absolute_spec(value, base) {
                Some(url) => {
                    let img = ImageView { url, width: w, height: h };
                    DraftView {
                        shot: Some(
                            match kind {
                                ImageKind::Source => ShotDraftView { source: Some(img), ..s },
                                ImageKind::Thumbnail => ShotDraftView { thumbnails: s.thumbnails.push(img), ..s },
                            },
                        ),
                        ..d
                    }
                },
                None => d,
            },
            None => d,
        },
        None => d,
    }
}

/// An id loses a trailing `.desktop`, so the Arch catalogue's
/// `com.valvesoftware.Steam.desktop` and Flathub's `com.valvesoftware.Steam`
/// are the same key.
pub open spec fn strip_desktop(v: Seq<char>) -> Seq<char> {
    if ".desktop"@.is_suffix_of(v) {
        v.take(v.len() - 8)
    } else {
        v
    }
}

/// The end of a text element: a non-empty value sets its field, or joins
/// its list; a `<name>` under `<developer>` is the developer.
pub open spec fn draft_end_field(d: DraftView, tag: Tag, value: Seq<char>, under_developer: bool) -> DraftView {
    let c = d.component;
    if value.len() == 0 {
        d
    } else {
        match tag {
            Tag::Id => DraftView { component: ComponentView { id: strip_desktop(value), ..c }, ..d },
            Tag::Pkgname => DraftView { component: ComponentView { pkgname: Some(value), ..c }, ..d },
            Tag::Bundle => DraftView { component: ComponentView { bundle: Some(value), ..c }, ..d },
            Tag::Name => if under_developer {
                DraftView { developer: Some(value), ..d }
            } else {
                DraftView { component: ComponentView { name: value, ..c }, ..d }
            },
            Tag::Summary => DraftView { component: ComponentView { summary: Some(value), ..c }, ..d },
            Tag::DeveloperName => DraftView { developer_name: Some(value), ..d },
            Tag::ProjectLicense => DraftView { component: ComponentView { licence: Some(value), ..c }, ..d },
            Tag::Url => DraftView { component: ComponentView { homepage: Some(value), ..c }, ..d },
            Tag::Category => DraftView {
                component: ComponentView { categories: c.categories.push(value), ..c },
                ..d
            },
            Tag::Keyword => DraftView { component: ComponentView { keywords: c.keywords.push(value), ..c }, ..d },
            Tag::Caption => match d.shot {
                Some(s) => DraftView { shot: Some(ShotDraftView { caption: Some(value), ..s }), ..d },
                None => d,
            },
            _ => d,
        }
    }
}

impl Draft {
    /// A draft of a component with nothing read yet but what its start tag
    /// says.
    pub fn new(component: Component) -> (d: Draft)
        ensures
            d@ == (DraftView {
                component: component@,
                cached_icons: Seq::empty(),
                remote_icon: None,
                developer: None,
                developer_name: None,
                shots: Seq::empty(),
                defaults: Seq::empty(),
                shot: None,
                release: None,
            }),
    {
        let d = Draft {
            component,
            cached_icons: Vec::new(),
            remote_icon: None,
            developer: None,
            developer_name: None,
            shots: Vec::new(),
            defaults: Vec::new(),
            shot: None,
            release: None,
        };
        assert(cached_view(d.cached_icons@) =~= Seq::<(u32, Seq<char>)>::empty());
        assert(shots_view(d.shots@) =~= Seq::<ShotView>::empty());
        assert(d.defaults@ =~= Seq::<bool>::empty());
        d
    }

    pub fn end_screenshot(&mut self)
        ensures
            final(self)@ == draft_end_screenshot(old(self)@),
    {
        match self.shot.take() {
            None => {},
            Some(s) => {
                let default = s.default;
                let ghost sv = s@;
                match s.finish() {
                    Some(shot) => {
                        let ghost before = shots_view(self.shots@);
                        self.shots.push(shot);
                        self.defaults.push(default);
                        assert(shots_view(self.shots@) =~= before.push(shot_view(shot)));
                    },
                    None => {},
                }
            },
        }
    }

    pub fn end_icon(&mut self, icon: Option<(IconKind, u32)>, value: &str, base: &Option<String>)
        ensures
            final(self)@ == draft_end_icon(old(self)@, icon, value@, crate::model::opt_view(*base)),
    {
        match icon {
            Some((kind, width)) => {
                if text::chars(value).len() == 0 {
                    return;
                }
                match kind {
                    IconKind::Cached => {
                        let ghost before = cached_view(self.cached_icons@);
                        self.cached_icons.push((width, text::string_from(value)));
                        assert(cached_view(self.cached_icons@) =~= before.push((width, value@)));
                    },
                    IconKind::Remote => {
                        let b = match base {
                            Some(b) => Some(b.as_str()),
                            None => None,
                        };
                        match super::parser::absolute(value, b) {
                            Some(url) => {
                                let wider = match &self.remote_icon {
                                    None => true,
                                    Some(r) => width > r.0,
                                };
                                if wider {
                                    self.remote_icon = Some((width, url));
                                }
                            },
                            None => {},
                        }
                    },
                }
            },
            None => {},
        }
    }

    pub fn end_image(
        &mut self,
        image: Option<(ImageKind, Option<u32>, Option<u32>)>,
        value: &str,
        base: &Option<String>,
    )
        ensures
            final(self)@ == draft_end_image(old(self)@, image, value@, crate::model::opt_view(*base)),
    {
        match image {
            Some((kind, w, h)) => {
                match self.shot.take() {
                    Some(mut s) => {
                        let b = match base {
                            Some(b) => Some(b.as_str()),
                            None => None,
                        };
                        match super::parser::absolute(value, b) {
                            Some(url) => {
                                let img = ImageDraft { url, width: w, height: h };
                                match kind {
                                    ImageKind::Source => {
                                        s.source = Some(img);
                                    },
                                    ImageKind::Thumbnail => {
                                        let ghost before = images_view(s.thumbnails@);
                                        s.thumbnails.push(img);
                                        assert(images_view(s.thumbnails@) =~= before.push(img@));
                                    },
                                }
                            },
                            None => {},
                        }
                        self.shot = Some(s);
                    },
                    None => {},
                }
            },
            None => {},
        }
    }

    pub fn end_field(&mut self, tag: Tag, value: String, under_developer: bool)
        ensures
            final(self)@ == draft_end_field(old(self)@, tag, value@, under_developer),
    {
        let vc = text::chars(value.as_str());
        if vc.len() == 0 {
            return;
        }
        match tag {
            Tag::Id => {
                proof {
                    reveal_strlit(".desktop");
                }
                if text::ends_with_str(vc.as_slice(), ".desktop") {
                    let head = text::slice_chars(vc.as_slice(), 0, vc.len() - 8);
                    assert(head@ =~= value@.take(value@.len() - 8));
                    self.component.id = text::string_of(head.as_slice());
                } else {
                    self.component.id = value;
                }
            },
            Tag::Pkgname => {
                self.component.pkgname = Some(value);
            },
            Tag::Bundle => {
                self.component.bundle = Some(value);
            },
            Tag::Name => {
                if under_developer {
                    self.developer = Some(value);
                } else {
                    self.component.name = value;
                }
            },
            Tag::Summary => {
                self.component.summary = Some(value);
            },
            Tag::DeveloperName => {
                self.developer_name = Some(value);
            },
            Tag::ProjectLicense => {
                self.component.licence = Some(value);
            },
            Tag::Url => {
                self.component.homepage = Some(value);
            },
            Tag::Category => {
                let ghost before = crate::model::strings_view(self.component.categories@);
                self.component.categories.push(value);
                assert(crate::model::strings_view(self.component.categories@) =~= before.push(value@));
            },
            Tag::Keyword => {
                let ghost before = crate::model::strings_view(self.component.keywords@);
                self.component.keywords.push(value);
                assert(crate::model::strings_view(self.component.keywords@) =~= before.push(value@));
            },
            Tag::Caption => {
                match self.shot.take() {
                    Some(mut s) => {
                        s.caption = Some(value);
                        self.shot = Some(s);
                    },
                    None => {},
                }
            },
            _ => {},
        }
    }
}

// ---------------------------------------------------------------------------
// The parser
// ---------------------------------------------------------------------------

/// The parser between two events: the file's facts; the tags of the open
/// elements it went into; the text of the leaf being read; the component
/// being drafted; the description being written, with the depth just
/// outside it; the icon or image being read; the components finished.
pub struct ParserView {
    pub facts: FactsView,
    pub stack: Seq<Tag>,
    pub text: Seq<char>,
    pub draft: Option<DraftView>,
    pub description: Option<super::parser::DescView>,
    pub description_depth: nat,
    pub icon: Option<(IconKind, u32)>,
    pub image: Option<(ImageKind, Option<u32>, Option<u32>)>,
    pub out: Seq<ComponentView>,
}

pub struct Parser {
    facts: FileFacts,
    stack: Vec<Tag>,
    text: String,
    draft: Option<Draft>,
    description: Option<super::parser::DescriptionWriter>,
    description_depth: usize,
    icon: Option<(IconKind, u32)>,
    image: Option<(ImageKind, Option<u32>, Option<u32>)>,
    out: Vec<Component>,
}

pub open spec fn components_view(v: Seq<Component>) -> Seq<ComponentView> {
    v.map_values(|c: Component| c@)
}

impl View for Parser {
    type V = ParserView;

    closed spec fn view(&self) -> ParserView {
        ParserView {
            facts: self.facts@,
            stack: self.stack@,
            text: self.text@,
            draft: match self.draft {
                Some(d) => Some(d@),
                None => None,
            },
            description: match self.description {
                Some(w) => Some(w@),
                None => None,
            },
            description_depth: self.description_depth as nat,
            icon: self.icon,
            image: self.image,
            out: components_view(self.out@),
        }
    }
}

pub open spec fn attr_of(t: super::parser::StartTag, key: Seq<char>) -> Option<Seq<char>> {
    super::parser::attr_spec(t.attrs@, key)
}

pub open spec fn parser_new(icons: Option<IconFilesView>, origin: Option<Seq<char>>) -> ParserView {
    ParserView {
        facts: facts_new(icons, origin),
        stack: Seq::empty(),
        text: Seq::empty(),
        draft: None,
        description: None,
        description_depth: 0,
        icon: None,
        image: None,
        out: Seq::empty(),
    }
}

/// A new `<component>`: its type, `generic` when it says none, decides
/// whether it is an application; it takes the file's origin.
pub open spec fn begin_component(p: ParserView, t: super::parser::StartTag) -> ParserView {
    let ty = match attr_of(t, "type"@) {
        Some(x) => x,
        None => "generic"@,
    };
    ParserView {
        draft: Some(
            DraftView {
                component: ComponentView {
                    id: Seq::empty(),
                    origin: p.facts.origin,
                    component_type: ty,
                    pkgname: None,
                    bundle: None,
                    name: Seq::empty(),
                    summary: None,
                    description: None,
                    developer: None,
                    licence: None,
                    homepage: None,
                    categories: Seq::empty(),
                    keywords: Seq::empty(),
                    icon: None,
                    screenshots: Seq::empty(),
                    is_app: super::parser::is_app_type(ty),
                    latest_release: None,
                },
                cached_icons: Seq::empty(),
                remote_icon: None,
                developer: None,
                developer_name: None,
                shots: Seq::empty(),
                defaults: Seq::empty(),
                shot: None,
                release: None,
            },
        ),
        ..p
    }
}

/// When a release was made: its `timestamp`, else its `date`.
pub open spec fn release_time(t: super::parser::StartTag) -> Option<i64> {
    let stamp = match attr_of(t, "timestamp"@) {
        Some(x) => text::parse_signed(text::trim(x)),
        None => None,
    };
    match stamp {
        Some(n) => Some(n as i64),
        None => match attr_of(t, "date"@) {
            Some(d) => match super::parser::date_spec(d) {
                Some(n) => Some(n as i64),
                None => None,
            },
            None => None,
        },
    }
}

/// A `<release>` with a version counts towards the newest release.
pub open spec fn note_release(p: ParserView, t: super::parser::StartTag) -> ParserView {
    match p.draft {
        None => p,
        Some(d) => match attr_of(t, "version"@) {
            Some(v) => if text::trim(v).len() > 0 {
                ParserView { draft: Some(draft_note_release(d, text::trim(v), release_time(t))), ..p }
            } else {
                p
            },
            None => p,
        },
    }
}

pub open spec fn image_kind(ty: Option<Seq<char>>) -> Option<ImageKind> {
    match ty {
        None => Some(ImageKind::Source),
        Some(t) => if t == "source"@ {
            Some(ImageKind::Source)
        } else if t == "thumbnail"@ {
            Some(ImageKind::Thumbnail)
        } else {
            None
        },
    }
}

/// Stock icons name a theme icon the page cannot look up from a webview;
/// local ones are paths of another machine's catalogue generator.
pub open spec fn icon_kind(ty: Option<Seq<char>>) -> Option<IconKind> {
    match ty {
        Some(t) => if t == "cached"@ {
            Some(IconKind::Cached)
        } else if t == "remote"@ {
            Some(IconKind::Remote)
        } else {
            None
        },
        None => None,
    }
}

pub open spec fn clear_text(p: ParserView) -> ParserView {
    ParserView { text: Seq::empty(), ..p }
}

/// An element directly under `<component>`: whether the parser goes in,
/// and what it readies.
pub open spec fn start_in_component(p: ParserView, t: super::parser::StartTag, tag: Tag) -> (ParserView, bool) {
    match tag {
        Tag::Id | Tag::Pkgname | Tag::Name | Tag::Summary | Tag::DeveloperName | Tag::ProjectLicense => (
            clear_text(p),
            true,
        ),
        Tag::Bundle => (clear_text(p), attr_of(t, "type"@) == Some("flatpak"@)),
        Tag::Url => (clear_text(p), attr_of(t, "type"@) == Some("homepage"@)),
        Tag::Description => (
            ParserView {
                description: Some(super::parser::DescView { out: Seq::empty(), at_block_edge: true }),
                description_depth: p.stack.len(),
                ..p
            },
            true,
        ),
        Tag::Developer | Tag::Categories | Tag::Keywords | Tag::Screenshots | Tag::Releases => (p, true),
        Tag::Icon => match icon_kind(attr_of(t, "type"@)) {
            Some(k) => (
                ParserView {
                    icon: Some(
                        (
                            k,
                            match super::parser::number_spec(t.attrs@, "width"@) {
                                Some(w) => w,
                                None => 64u32,
                            },
                        ),
                    ),
                    text: Seq::empty(),
                    ..p
                },
                true,
            ),
            None => (p, false),
        },
        _ => (p, false),
    }
}

/// An element under the one on top of the stack.
pub open spec fn start_child(p: ParserView, t: super::parser::StartTag, parent: Option<Tag>, tag: Tag) -> (ParserView, bool) {
    if parent is None && tag == Tag::Components {
        (
            ParserView {
                facts: settle(p.facts, attr_of(t, "origin"@), attr_of(t, "media_baseurl"@)),
                ..p
            },
            true,
        )
    } else if (parent is None || parent == Some(Tag::Components)) && tag == Tag::Component {
        (begin_component(p, t), true)
    } else if parent == Some(Tag::Component) {
        start_in_component(p, t, tag)
    } else if (parent == Some(Tag::Developer) && tag == Tag::Name) || (parent == Some(Tag::Categories)
        && tag == Tag::Category) || (parent == Some(Tag::Keywords) && tag == Tag::Keyword) || (parent
        == Some(Tag::Screenshot) && tag == Tag::Caption) {
        (clear_text(p), true)
    } else if parent == Some(Tag::Screenshots) && tag == Tag::Screenshot {
        (
            match p.draft {
                Some(d) => ParserView {
                    draft: Some(
                        DraftView {
                            shot: Some(
                                ShotDraftView {
                                    default: attr_of(t, "type"@) == Some("default"@),
                                    caption: None,
                                    source: None,
                                    thumbnails: Seq::empty(),
                                },
                            ),
                            ..d
                        },
                    ),
                    ..p
                },
                None => p,
            },
            true,
        )
    } else if parent == Some(Tag::Screenshot) && tag == Tag::Image {
        match image_kind(attr_of(t, "type"@)) {
            Some(k) => (
                ParserView {
                    image: Some(
                        (
                            k,
                            super::parser::number_spec(t.attrs@, "width"@),
                            super::parser::number_spec(t.attrs@, "height"@),
                        ),
                    ),
                    text: Seq::empty(),
                    ..p
                },
                true,
            ),
            None => (p, false),
        }
    } else if parent == Some(Tag::Releases) && tag == Tag::Release {
        // A release carries its own description and issue list; nothing
        // below it is drawn.
        (note_release(p, t), false)
    } else {
        (p, false)
    }
}

pub open spec fn top(stack: Seq<Tag>) -> Option<Tag> {
    if stack.len() == 0 {
        None
    } else {
        Some(stack.last())
    }
}

/// A start tag: translations are skipped; inside a description every tag
/// is written; elsewhere the element is read if the parser draws from it.
pub open spec fn start_step(p: ParserView, t: super::parser::StartTag) -> (ParserView, Descend) {
    if super::parser::translated(t.attrs@) {
        (p, Descend::Skip)
    } else {
        match p.description {
            Some(d) => (
                ParserView {
                    description: Some(super::parser::desc_open(d, t.name@)),
                    stack: p.stack.push(Tag::Other),
                    ..p
                },
                Descend::Into,
            ),
            None => {
                let tag = tag_of(t.name@);
                let (q, into) = start_child(p, t, top(p.stack), tag);
                if into {
                    (ParserView { stack: q.stack.push(tag), ..q }, Descend::Into)
                } else {
                    (q, Descend::Skip)
                }
            },
        }
    }
}

/// An empty element: only a `<release/>` in `<releases>` counts.
pub open spec fn empty_step(p: ParserView, t: super::parser::StartTag) -> ParserView {
    if super::parser::translated(t.attrs@) || p.description is Some {
        p
    } else if top(p.stack) == Some(Tag::Releases) && tag_of(t.name@) == Tag::Release {
        note_release(p, t)
    } else {
        p
    }
}

/// The end of an element inside the draft, with the trimmed text read.
pub open spec fn end_in_draft(p: ParserView, d: DraftView, tag: Tag, value: Seq<char>) -> ParserView {
    if tag == Tag::Screenshot {
        ParserView { draft: Some(draft_end_screenshot(d)), ..p }
    } else if tag == Tag::Icon {
        ParserView { icon: None, draft: Some(draft_end_icon(d, p.icon, value, p.facts.media_base)), ..p }
    } else if tag == Tag::Image {
        ParserView { image: None, draft: Some(draft_end_image(d, p.image, value, p.facts.media_base)), ..p }
    } else {
        ParserView { draft: Some(draft_end_field(d, tag, value, top(p.stack) == Some(Tag::Developer))), ..p }
    }
}

/// An end tag: the description is closed or written to; a component is
/// finished and kept if it has an id; any other element hands its text to
/// the draft.
pub open spec fn end_step(p0: ParserView, name: Seq<char>) -> ParserView {
    if p0.stack.len() == 0 {
        p0
    } else {
        let tag = p0.stack.last();
        let p = ParserView { stack: p0.stack.drop_last(), ..p0 };
        match p.description {
            Some(w) => if p.stack.len() == p.description_depth {
                ParserView {
                    description: None,
                    draft: match p.draft {
                        Some(d) => Some(
                            DraftView {
                                component: ComponentView {
                                    description: super::parser::desc_finish(w),
                                    ..d.component
                                },
                                ..d
                            },
                        ),
                        None => None,
                    },
                    ..p
                }
            } else {
                ParserView { description: Some(super::parser::desc_close(w, name)), ..p }
            },
            None => if tag == Tag::Component {
                ParserView {
                    draft: None,
                    out: match p.draft {
                        Some(d) => match draft_finish(d, p.facts) {
                            Some(c) => p.out.push(c),
                            None => p.out,
                        },
                        None => p.out,
                    },
                    ..p
                }
            } else {
                match p.draft {
                    None => p,
                    Some(d) => end_in_draft(p, d, tag, text::trim(p.text)),
                }
            },
        }
    }
}

/// Text: into the description while one is open, else onto the leaf's text.
pub open spec fn text_step(p: ParserView, s: Seq<char>) -> ParserView {
    match p.description {
        Some(d) => ParserView { description: Some(super::parser::desc_text(d, s)), ..p },
        None => ParserView { text: p.text + s, ..p },
    }
}

pub open spec fn truncated_message() -> Seq<char> {
    "The AppStream catalogue ends before its root element is closed, so it is probably truncated. Refresh the catalogue and try again."@
}

/// The end of the input: the components read, unless an element is still
/// open.
pub open spec fn finish_step(p: ParserView) -> Result<Seq<ComponentView>, Seq<char>> {
    if p.stack.len() > 0 {
        Err(truncated_message())
    } else {
        Ok(p.out)
    }
}


fn release_time_exec(t: &super::parser::StartTag) -> (r: Option<i64>)
    ensures
        r == release_time(*t),
{
    let stamp = match super::parser::attr(t, "timestamp") {
        Some(x) => {
            let c = text::chars(x.as_str());
            let tc = text::trim_chars(c.as_slice());
            text::parse_i64_chars(tc.as_slice())
        },
        None => None,
    };
    match stamp {
        Some(n) => Some(n),
        None => match super::parser::attr(t, "date") {
            Some(d) => super::parser::date_to_unix(d.as_str()),
            None => None,
        },
    }
}

impl Parser {
    pub fn new(icons: Option<IconFiles>, origin: Option<String>) -> (p: Parser)
        ensures
            p@ == parser_new(
                match icons {
                    Some(i) => Some(i@),
                    None => None,
                },
                crate::model::opt_view(origin),
            ),
    {
        let p = Parser {
            facts: FileFacts::new(icons, origin),
            stack: Vec::new(),
            text: String::new(),
            draft: None,
            description: None,
            description_depth: 0,
            icon: None,
            image: None,
            out: Vec::new(),
        };
        assert(components_view(p.out@) =~= Seq::<ComponentView>::empty());
        assert(p.stack@ =~= Seq::<Tag>::empty());
        p
    }

    fn begin_component(&mut self, t: &super::parser::StartTag)
        ensures
            final(self)@ == begin_component(old(self)@, *t),
    {
        proof {
            reveal_strlit("generic");
        }
        let ty = match super::parser::attr(t, "type") {
            Some(x) => x,
            None => text::string_from("generic"),
        };
        let mut c = Component::default();
        c.origin = self.facts.origin.clone();
        c.is_app = super::parser::is_app(ty.as_str());
        c.component_type = ty;
        assert(c.id@ =~= Seq::<char>::empty());
        assert(c.name@ =~= Seq::<char>::empty());
        assert(crate::model::strings_view(c.categories@) =~= Seq::<Seq<char>>::empty());
        assert(crate::model::strings_view(c.keywords@) =~= Seq::<Seq<char>>::empty());
        assert(c.screenshots@.map_values(|s: Screenshot| shot_view(s)) =~= Seq::<ShotView>::empty());
        self.draft = Some(Draft::new(c));
    }

    fn note_release(&mut self, t: &super::parser::StartTag)
        ensures
            final(self)@ == note_release(old(self)@, *t),
    {
        match self.draft.take() {
            None => {},
            Some(mut d) => {
                match super::parser::attr(t, "version") {
                    Some(v) => {
                        let vc = text::chars(v.as_str());
                        let tv = text::trim_chars(vc.as_slice());
                        if tv.len() > 0 {
                            let ts = release_time_exec(t);
                            d.note_release(text::string_of(tv.as_slice()), ts);
                        }
                    },
                    None => {},
                }
                self.draft = Some(d);
            },
        }
    }

    fn start_in_component(&mut self, t: &super::parser::StartTag, tag: Tag) -> (r: bool)
        ensures
            (final(self)@, r) == start_in_component(old(self)@, *t, tag),
    {
        proof {
            reveal_strlit("type");
            reveal_strlit("width");
        }
        match tag {
            Tag::Id | Tag::Pkgname | Tag::Name | Tag::Summary | Tag::DeveloperName | Tag::ProjectLicense => {
                self.text = String::new();
                true
            },
            Tag::Bundle => {
                self.text = String::new();
                super::parser::attr_is(t, "type", "flatpak")
            },
            Tag::Url => {
                self.text = String::new();
                super::parser::attr_is(t, "type", "homepage")
            },
            Tag::Description => {
                self.description = Some(super::parser::DescriptionWriter::new());
                self.description_depth = self.stack.len();
                true
            },
            Tag::Developer | Tag::Categories | Tag::Keywords | Tag::Screenshots | Tag::Releases => true,
            Tag::Icon => {
                let ty = super::parser::attr(t, "type");
                let kind = match ty {
                    Some(k) => {
                        let kc = text::chars(k.as_str());
                        if text::eq_str(kc.as_slice(), "cached") {
                            IconKind::Cached
                        } else if text::eq_str(kc.as_slice(), "remote") {
                            IconKind::Remote
                        } else {
                            return false;
                        }
                    },
                    None => return false,
                };
                let width = match super::parser::number(t, "width") {
                    Some(w) => w,
                    None => 64,
                };
                self.icon = Some((kind, width));
                self.text = String::new();
                true
            },
            _ => false,
        }
    }

    fn start_child(&mut self, t: &super::parser::StartTag, parent: Option<Tag>, tag: Tag) -> (r: bool)
        ensures
            (final(self)@, r) == start_child(old(self)@, *t, parent, tag),
    {
        if parent.is_none() && tag == Tag::Components {
            let o = super::parser::attr(t, "origin");
            let b = super::parser::attr(t, "media_baseurl");
            self.facts.settle(o, b);
            true
        } else if (parent.is_none() || parent == Some(Tag::Components)) && tag == Tag::Component {
            self.begin_component(t);
            true
        } else if parent == Some(Tag::Component) {
            self.start_in_component(t, tag)
        } else if (parent == Some(Tag::Developer) && tag == Tag::Name) || (parent == Some(Tag::Categories)
            && tag == Tag::Category) || (parent == Some(Tag::Keywords) && tag == Tag::Keyword) || (parent
            == Some(Tag::Screenshot) && tag == Tag::Caption) {
            self.text = String::new();
            true
        } else if parent == Some(Tag::Screenshots) && tag == Tag::Screenshot {
            match self.draft.take() {
                Some(mut d) => {
                    let default = super::parser::attr_is(t, "type", "default");
                    d.shot = Some(ShotDraft::new(default));
                    self.draft = Some(d);
                },
                None => {},
            }
            true
        } else if parent == Some(Tag::Screenshot) && tag == Tag::Image {
            let kind = match super::parser::attr(t, "type") {
                None => ImageKind::Source,
                Some(k) => {
                    let kc = text::chars(k.as_str());
                    if text::eq_str(kc.as_slice(), "source") {
                        ImageKind::Source
                    } else if text::eq_str(kc.as_slice(), "thumbnail") {
                        ImageKind::Thumbnail
                    } else {
                        return false;
                    }
                },
            };
            let w = super::parser::number(t, "width");
            let h = super::parser::number(t, "height");
            self.image = Some((kind, w, h));
            self.text = String::new();
            true
        } else if parent == Some(Tag::Releases) && tag == Tag::Release {
            self.note_release(t);
            false
        } else {
            false
        }
    }

    /// A start tag; the reader skips the element whole when told to.
    pub fn start(&mut self, t: &super::parser::StartTag) -> (d: Descend)
        ensures
            (final(self)@, d) == start_step(old(self)@, *t),
    {
        if super::parser::is_translated(t) {
            return Descend::Skip;
        }
        match self.description.take() {
            Some(mut w) => {
                w.open(t.name.as_str());
                self.description = Some(w);
                self.stack.push(Tag::Other);
                return Descend::Into;
            },
            None => {},
        }
        let tg = tag(t.name.as_str());
        let parent = if self.stack.len() == 0 {
            None
        } else {
            Some(self.stack[self.stack.len() - 1])
        };
        let into = self.start_child(t, parent, tg);
        if into {
            self.stack.push(tg);
            Descend::Into
        } else {
            Descend::Skip
        }
    }

    /// An empty element.
    pub fn empty(&mut self, t: &super::parser::StartTag)
        ensures
            final(self)@ == empty_step(old(self)@, *t),
    {
        if super::parser::is_translated(t) || self.description.is_some() {
            return;
        }
        if self.stack.len() > 0 && self.stack[self.stack.len() - 1] == Tag::Releases && tag(t.name.as_str())
            == Tag::Release {
            self.note_release(t);
        }
    }

    /// An end tag, by its local name.
    pub fn end(&mut self, name: &str)
        ensures
            final(self)@ == end_step(old(self)@, name@),
    {
        let tg = match self.stack.pop() {
            Some(t) => t,
            None => return,
        };
        match self.description.take() {
            Some(mut w) => {
                if self.stack.len() == self.description_depth {
                    let desc = w.finish();
                    match self.draft.take() {
                        Some(mut d) => {
                            d.component.description = desc;
                            self.draft = Some(d);
                        },
                        None => {},
                    }
                } else {
                    w.close(name);
                    self.description = Some(w);
                }
                return;
            },
            None => {},
        }
        if tg == Tag::Component {
            match self.draft.take() {
                Some(d) => match d.finish(&self.facts) {
                    Some(c) => {
                        let ghost before = components_view(self.out@);
                        self.out.push(c);
                        assert(components_view(self.out@) =~= before.push(c@));
                    },
                    None => {},
                },
                None => {},
            }
            return;
        }
        let tc = text::chars(self.text.as_str());
        let tv = text::trim_chars(tc.as_slice());
        let value = text::string_of(tv.as_slice());
        match self.draft.take() {
            None => {},
            Some(mut d) => {
                if tg == Tag::Screenshot {
                    d.end_screenshot();
                } else if tg == Tag::Icon {
                    let icon = self.icon.take();
                    d.end_icon(icon, value.as_str(), &self.facts.media_base);
                } else if tg == Tag::Image {
                    let image = self.image.take();
                    d.end_image(image, value.as_str(), &self.facts.media_base);
                } else {
                    let under = self.stack.len() > 0 && self.stack[self.stack.len() - 1] == Tag::Developer;
                    d.end_field(tg, value, under);
                }
                self.draft = Some(d);
            },
        }
    }

    /// Text, with its references already resolved.
    pub fn text(&mut self, s: &str)
        ensures
            final(self)@ == text_step(old(self)@, s@),
    {
        match self.description.take() {
            Some(mut w) => {
                w.text(s);
                self.description = Some(w);
            },
            None => {
                text::push_str(&mut self.text, s);
            },
        }
    }

    /// The components read, or the error of a file that ends too soon.
    pub fn finish(self) -> (r: Result<Vec<Component>, crate::model::Error>)
        ensures
            match r {
                Ok(v) => finish_step(self@) == Ok::<Seq<ComponentView>, Seq<char>>(components_view(v@)),
                Err(e) => finish_step(self@) == Err::<Seq<ComponentView>, Seq<char>>(e.message@),
            },
    {
        if self.stack.len() > 0 {
            Err(
                crate::model::Error::new(
                    text::string_from(
                        "The AppStream catalogue ends before its root element is closed, so it is probably truncated. Refresh the catalogue and try again.",
                    ),
                ),
            )
        } else {
            Ok(self.out)
        }
    }
}

// ---------------------------------------------------------------------------
// What every step keeps
// ---------------------------------------------------------------------------

/// What holds of the parser between any two events: every component read
/// has an id and a name, and where the caller gave an origin, the file's
/// origin, the draft's and every component's are that origin.
pub open spec fn sound(p: ParserView) -> bool {
    &&& forall|i: int| 0 <= i < p.out.len() ==> #[trigger] p.out[i].id.len() > 0 && p.out[i].name.len() > 0
        && (p.facts.origin_override matches Some(o) ==> p.out[i].origin == o)
    &&& p.facts.origin_override matches Some(o) ==> p.facts.origin == o && (p.draft matches Some(d)
        ==> d.component.origin == o)
}

pub proof fn lemma_new_is_sound(icons: Option<IconFilesView>, origin: Option<Seq<char>>)
    ensures
        sound(parser_new(icons, origin)),
        parser_new(icons, origin).facts.origin_override == origin,
{
}

/// A finished draft keeps its origin, and has an id and a name.
pub proof fn lemma_draft_finish(d: DraftView, facts: FactsView)
    ensures
        draft_finish(d, facts) matches Some(c) ==> c.id.len() > 0 && c.name.len() > 0 && c.origin
            == d.component.origin,
{
}

pub proof fn lemma_draft_steps_keep_origin(d: DraftView, tag: Tag, value: Seq<char>, under: bool, icon: Option<(IconKind, u32)>, image: Option<(ImageKind, Option<u32>, Option<u32>)>, base: Option<Seq<char>>, version: Seq<char>, ts: Option<i64>)
    ensures
        draft_end_field(d, tag, value, under).component.origin == d.component.origin,
        draft_end_screenshot(d).component.origin == d.component.origin,
        draft_end_icon(d, icon, value, base).component.origin == d.component.origin,
        draft_end_image(d, image, value, base).component.origin == d.component.origin,
        draft_note_release(d, version, ts).component.origin == d.component.origin,
{
}

pub proof fn lemma_start_keeps_sound(p: ParserView, t: super::parser::StartTag)
    requires
        sound(p),
    ensures
        sound(start_step(p, t).0),
        start_step(p, t).0.facts.origin_override == p.facts.origin_override,
        start_step(p, t).0.out == p.out,
{
    let tag = tag_of(t.name@);
    let parent = top(p.stack);
    if let Some(d) = p.draft {
        if let Some(v) = attr_of(t, "version"@) {
            lemma_draft_steps_keep_origin(d, tag, v, false, None, None, None, text::trim(v), release_time(t));
        }
    }
}

pub proof fn lemma_empty_keeps_sound(p: ParserView, t: super::parser::StartTag)
    requires
        sound(p),
    ensures
        sound(empty_step(p, t)),
        empty_step(p, t).facts.origin_override == p.facts.origin_override,
{
    if let Some(d) = p.draft {
        if let Some(v) = attr_of(t, "version"@) {
            lemma_draft_steps_keep_origin(d, Tag::Other, v, false, None, None, None, text::trim(v), release_time(t));
        }
    }
}

pub proof fn lemma_end_keeps_sound(p: ParserView, name: Seq<char>)
    requires
        sound(p),
    ensures
        sound(end_step(p, name)),
        end_step(p, name).facts.origin_override == p.facts.origin_override,
{
    if p.stack.len() > 0 {
        let tag = p.stack.last();
        let q = ParserView { stack: p.stack.drop_last(), ..p };
        if let Some(d) = q.draft {
            let value = text::trim(q.text);
            lemma_draft_finish(d, q.facts);
            lemma_draft_steps_keep_origin(d, tag, value, top(q.stack) == Some(Tag::Developer), q.icon, q.image, q.facts.media_base, value, None);
            let r = end_step(p, name);
            assert forall|i: int| 0 <= i < r.out.len() implies #[trigger] r.out[i].id.len() > 0 && r.out[i].name.len() > 0
                && (r.facts.origin_override matches Some(o) ==> r.out[i].origin == o) by {
                if i < p.out.len() {
                    assert(r.out[i] == p.out[i]);
                }
            }
        }
    }
}

pub proof fn lemma_text_keeps_sound(p: ParserView, s: Seq<char>)
    requires
        sound(p),
    ensures
        sound(text_step(p, s)),
        text_step(p, s).facts.origin_override == p.facts.origin_override,
{
}

/// What `best_at` finds is a bare name whose file is in that size's
/// directory.
pub proof fn lemma_best_at_on_disk(
    cached: Seq<(u32, Seq<char>)>,
    prefix: Seq<char>,
    size: Seq<char>,
    files: Seq<Seq<char>>,
)
    ensures
        best_at(cached, prefix, size, files) matches Some(c) ==> plain_name(c.1) && files.contains(
            sized_path(prefix, size, c.1),
        ),
    decreases cached.len(),
{
    if cached.len() > 0 {
        lemma_best_at_on_disk(cached.drop_last(), prefix, size, files);
    }
}

/// A file is never the answer unless it is one of the files on disk, under
/// the icon directory, named by a bare file name: the page never draws a
/// broken image, and a catalogue cannot make the store serve a file of its
/// choosing.
pub proof fn lemma_picked_file_is_on_disk(
    cached: Seq<(u32, Seq<char>)>,
    remote: Option<(u32, Seq<char>)>,
    icons: Option<IconFilesView>,
    origin: Seq<char>,
)
    ensures
        pick_spec(cached, remote, icons, origin) matches Some(PictureView::File(p)) ==> (icons matches Some(f)
            && exists|rel: Seq<char>, name: Seq<char>|
            #![trigger f.files.contains(rel), plain_name(name)]
            f.files.contains(rel) && plain_name(name) && p == text::path_join(f.root, rel)
                && name.is_suffix_of(rel)),
{
    if let Some(f) = icons {
        let prefix = icon_prefix(origin, f.dirs);
        lemma_best_at_on_disk(cached, prefix, "128x128"@, f.files);
        lemma_best_at_on_disk(cached, prefix, "64x64"@, f.files);
        lemma_best_at_on_disk(cached, prefix, "48x48"@, f.files);
        if let Some(rel) = resolve_spec(cached, prefix, f.files) {
            let c = if best_at(cached, prefix, "128x128"@, f.files) is Some {
                best_at(cached, prefix, "128x128"@, f.files)->0
            } else if best_at(cached, prefix, "64x64"@, f.files) is Some {
                best_at(cached, prefix, "64x64"@, f.files)->0
            } else {
                best_at(cached, prefix, "48x48"@, f.files)->0
            };
            let size = if best_at(cached, prefix, "128x128"@, f.files) is Some {
                "128x128"@
            } else if best_at(cached, prefix, "64x64"@, f.files) is Some {
                "64x64"@
            } else {
                "48x48"@
            };
            assert(rel == sized_path(prefix, size, c.1));
            assert(c.1.is_suffix_of(rel)) by {
                assert(rel.subrange(rel.len() - c.1.len(), rel.len() as int) =~= c.1);
            }
            assert(f.files.contains(rel) && plain_name(c.1));
        }
    }
}

} // verus!
