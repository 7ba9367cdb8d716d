//! The AppStream catalogue: the components this machine knows of, and the
//! index that finds them by id, by package, by Flatpak ref and by search.
//!
//! Everything in the index is positions into the catalogue's component
//! list, so the index never owns a component and building it is one pass.
//! The search keeps a lower-cased copy of the fields it matches, because the
//! search runs on every keystroke.

pub mod parser;
pub mod reader;

use vstd::prelude::*;
use crate::text;
use crate::model::{Picture, PictureView, Screenshot};

verus! {

/// A component from a catalogue, reduced to what the store draws from it.
#[derive(Clone, Debug, PartialEq)]
pub struct Component {
    /// The component id, with a trailing `.desktop` stripped so the Arch
    /// catalogue's `com.valvesoftware.Steam.desktop` and Flathub's
    /// `com.valvesoftware.Steam` are the same key.
    pub id: String,
    /// Which catalogue it came from: the origin attribute of the file.
    pub origin: String,
    /// The component's `type`: `desktop-application`, `addon`, `runtime`...
    pub component_type: String,
    /// The distribution package that provides it, where the catalogue says.
    pub pkgname: Option<String>,
    /// The Flatpak ref, where the catalogue is a remote's:
    /// `app/org.gimp.GIMP/x86_64/stable`.
    pub bundle: Option<String>,
    pub name: String,
    pub summary: Option<String>,
    /// The `<description>` markup, inner XML kept as the page expects it.
    pub description: Option<String>,
    pub developer: Option<String>,
    pub licence: Option<String>,
    pub homepage: Option<String>,
    pub categories: Vec<String>,
    pub keywords: Vec<String>,
    /// The largest cached icon that exists on disk, else a remote icon URL.
    pub icon: Option<Picture>,
    pub screenshots: Vec<Screenshot>,
    /// A desktop, console or web application, not an add-on or a runtime.
    pub is_app: bool,
    /// Newest `<release>` version and its timestamp, where present.
    pub latest_release: Option<(String, Option<i64>)>,
}

/// A screenshot as mathematics.
pub struct ShotView {
    pub image: PictureView,
    pub thumbnail: Option<PictureView>,
    pub caption: Option<Seq<char>>,
    pub width: Option<u32>,
    pub height: Option<u32>,
}

pub open spec fn shot_view(s: Screenshot) -> ShotView {
    ShotView {
        image: s.image@,
        thumbnail: crate::model::opt_picture(s.thumbnail),
        caption: crate::model::opt_view(s.caption),
        width: s.width,
        height: s.height,
    }
}

/// A component as mathematics.
pub struct ComponentView {
    pub id: Seq<char>,
    pub origin: Seq<char>,
    pub component_type: Seq<char>,
    pub pkgname: Option<Seq<char>>,
    pub bundle: Option<Seq<char>>,
    pub name: Seq<char>,
    pub summary: Option<Seq<char>>,
    pub description: Option<Seq<char>>,
    pub developer: Option<Seq<char>>,
    pub licence: Option<Seq<char>>,
    pub homepage: Option<Seq<char>>,
    pub categories: Seq<Seq<char>>,
    pub keywords: Seq<Seq<char>>,
    pub icon: Option<PictureView>,
    pub screenshots: Seq<ShotView>,
    pub is_app: bool,
    pub latest_release: Option<(Seq<char>, Option<i64>)>,
}

pub open spec fn release_view(r: Option<(String, Option<i64>)>) -> Option<(Seq<char>, Option<i64>)> {
    match r {
        Some((v, t)) => Some((v@, t)),
        None => None,
    }
}

impl View for Component {
    type V = ComponentView;

    open spec fn view(&self) -> ComponentView {
        ComponentView {
            id: self.id@,
            origin: self.origin@,
            component_type: self.component_type@,
            pkgname: crate::model::opt_view(self.pkgname),
            bundle: crate::model::opt_view(self.bundle),
            name: self.name@,
            summary: crate::model::opt_view(self.summary),
            description: crate::model::opt_view(self.description),
            developer: crate::model::opt_view(self.developer),
            licence: crate::model::opt_view(self.licence),
            homepage: crate::model::opt_view(self.homepage),
            categories: crate::model::strings_view(self.categories@),
            keywords: crate::model::strings_view(self.keywords@),
            icon: crate::model::opt_picture(self.icon),
            screenshots: self.screenshots@.map_values(|s: Screenshot| shot_view(s)),
            is_app: self.is_app,
            latest_release: release_view(self.latest_release),
        }
    }
}

impl Default for Component {
    fn default() -> (c: Component)
        ensures
            c.id@.len() == 0 && c.origin@.len() == 0 && c.component_type@.len() == 0,
            c.name@.len() == 0 && c.pkgname is None && c.bundle is None,
            c.summary is None && c.description is None && c.developer is None,
            c.licence is None && c.homepage is None && c.icon is None,
            c.categories@.len() == 0 && c.keywords@.len() == 0 && c.screenshots@.len() == 0,
            !c.is_app && c.latest_release is None,
    {
        Component {
            id: String::new(),
            origin: String::new(),
            component_type: String::new(),
            pkgname: None,
            bundle: None,
            name: String::new(),
            summary: None,
            description: None,
            developer: None,
            licence: None,
            homepage: None,
            categories: Vec::new(),
            keywords: Vec::new(),
            icon: None,
            screenshots: Vec::new(),
            is_app: false,
            latest_release: None,
        }
    }
}

// ---------------------------------------------------------------------------
// What the lookups answer, over the component list
// ---------------------------------------------------------------------------

/// The first position below `n` where `p` holds.
pub open spec fn first_where(n: nat, p: spec_fn(int) -> bool) -> Option<int>
    decreases n,
{
    if n == 0 {
        None
    } else {
        match first_where((n - 1) as nat, p) {
            Some(i) => Some(i),
            None => if p(n - 1) {
                Some(n - 1)
            } else {
                None
            },
        }
    }
}

/// Every position below `n` where `p` holds, in order.
pub open spec fn all_where(n: nat, p: spec_fn(int) -> bool) -> Seq<int>
    decreases n,
{
    if n == 0 {
        Seq::empty()
    } else {
        let rest = all_where((n - 1) as nat, p);
        if p(n - 1) {
            rest.push(n - 1)
        } else {
            rest
        }
    }
}

pub proof fn lemma_first_where(n: nat, p: spec_fn(int) -> bool)
    ensures
        first_where(n, p) matches Some(i) ==> 0 <= i < n && p(i) && forall|j: int| 0 <= j < i ==> !#[trigger] p(j),
        first_where(n, p) is None ==> forall|j: int| 0 <= j < n ==> !#[trigger] p(j),
    decreases n,
{
    if n > 0 {
        lemma_first_where((n - 1) as nat, p);
    }
}

/// Flathub's older catalogues say `type="desktop"` for what is now
/// `desktop-application`; both are the same thing to the package rule.
pub open spec fn desktop_type(t: Seq<char>) -> bool {
    t == "desktop-application"@ || t == "desktop"@
}

pub open spec fn id_is(cs: Seq<Component>, k: Seq<char>) -> spec_fn(int) -> bool {
    |i: int| cs[i].id@ == k
}

pub open spec fn pkg_is(cs: Seq<Component>, k: Seq<char>) -> spec_fn(int) -> bool {
    |i: int|
        match cs[i].pkgname {
            Some(p) => p@ == k,
            None => false,
        }
}

pub open spec fn desktop_pkg(cs: Seq<Component>, k: Seq<char>) -> spec_fn(int) -> bool {
    |i: int|
        match cs[i].pkgname {
            Some(p) => p@ == k && desktop_type(cs[i].component_type@),
            None => false,
        }
}

/// The id segment of `app/<id>/<arch>/<branch>` or `runtime/<id>/...`.
pub open spec fn bundle_id_spec(b: Seq<char>) -> Option<Seq<char>> {
    let parts = text::split(b, '/');
    if parts.len() >= 2 && (parts[0] == "app"@ || parts[0] == "runtime"@) && parts[1].len() > 0 {
        Some(parts[1])
    } else {
        None
    }
}

/// What a component is found by as a Flatpak ref: the full ref and its id
/// segment.
pub open spec fn bundle_keys(c: Component) -> Seq<Seq<char>> {
    match c.bundle {
        Some(b) => seq![b@] + match bundle_id_spec(b@) {
            Some(id) => seq![id],
            None => Seq::empty(),
        },
        None => Seq::empty(),
    }
}

pub open spec fn bundle_has(cs: Seq<Component>, k: Seq<char>) -> spec_fn(int) -> bool {
    |i: int| bundle_keys(cs[i]).contains(k)
}

/// The first component with this id; ids are exact.
pub open spec fn id_lookup(cs: Seq<Component>, k: Seq<char>) -> Option<int> {
    first_where(cs.len(), id_is(cs, k))
}

/// Among the first `n` components, the one a package is shown as: its
/// first desktop application, else the first listed.
pub open spec fn chosen_upto(cs: Seq<Component>, n: nat, k: Seq<char>) -> Option<int> {
    match first_where(n, desktop_pkg(cs, k)) {
        Some(d) => Some(d),
        None => first_where(n, pkg_is(cs, k)),
    }
}

/// The component a package is shown as: its first desktop application,
/// else the first listed.
pub open spec fn pkgname_lookup(cs: Seq<Component>, k: Seq<char>) -> Option<int> {
    chosen_upto(cs, cs.len(), k)
}

/// Every component of a package, in catalogue order.
pub open spec fn pkgname_all_spec(cs: Seq<Component>, k: Seq<char>) -> Seq<int> {
    all_where(cs.len(), pkg_is(cs, k))
}

/// The first component found by this full ref or ref id.
pub open spec fn bundle_lookup(cs: Seq<Component>, k: Seq<char>) -> Option<int> {
    first_where(cs.len(), bundle_has(cs, k))
}

// ---------------------------------------------------------------------------
// Lists of pairs, keyed by text
// ---------------------------------------------------------------------------

/// The value of the first pair with this key.
pub open spec fn assoc(e: Seq<(String, usize)>, k: Seq<char>) -> Option<int>
    decreases e.len(),
{
    if e.len() == 0 {
        None
    } else {
        match assoc(e.drop_last(), k) {
            Some(v) => Some(v),
            None => if e.last().0@ == k {
                Some(e.last().1 as int)
            } else {
                None
            },
        }
    }
}

/// The values of every pair with this key, in order.
pub open spec fn assoc_all(e: Seq<(String, usize)>, k: Seq<char>) -> Seq<int>
    decreases e.len(),
{
    if e.len() == 0 {
        Seq::empty()
    } else {
        let rest = assoc_all(e.drop_last(), k);
        if e.last().0@ == k {
            rest.push(e.last().1 as int)
        } else {
            rest
        }
    }
}

pub open spec fn opt_int(o: Option<usize>) -> Option<int> {
    match o {
        Some(v) => Some(v as int),
        None => None,
    }
}

proof fn lemma_assoc_prefix(e: Seq<(String, usize)>, j: int, k: Seq<char>)
    requires
        0 <= j <= e.len(),
        assoc(e.take(j), k) is Some,
    ensures
        assoc(e, k) == assoc(e.take(j), k),
    decreases e.len() - j,
{
    if j < e.len() {
        assert(e.take(j + 1).drop_last() =~= e.take(j));
        lemma_assoc_prefix(e, j + 1, k);
    } else {
        assert(e.take(j) =~= e);
    }
}

/// Where the first pair with this key stands.
fn position(e: &Vec<(String, usize)>, k: &String) -> (r: Option<usize>)
    ensures
        match r {
            Some(j) => j < e@.len() && e@[j as int].0@ == k@ && assoc(e@.take(j as int), k@) is None
                && assoc(e@, k@) == Some(e@[j as int].1 as int),
            None => assoc(e@, k@) is None,
        },
{
    let mut i: usize = 0;
    assert(e@.take(0) =~= Seq::<(String, usize)>::empty());
    while i < e.len()
        invariant
            i <= e@.len(),
            assoc(e@.take(i as int), k@) is None,
        decreases e@.len() - i,
    {
        assert(e@.take(i + 1).drop_last() =~= e@.take(i as int));
        if e[i].0 == *k {
            proof {
                lemma_assoc_prefix(e@, i + 1, k@);
            }
            return Some(i);
        }
        i = i + 1;
    }
    assert(e@.take(e@.len() as int) =~= e@);
    None
}

fn lookup(e: &Vec<(String, usize)>, k: &String) -> (r: Option<usize>)
    ensures
        opt_int(r) == assoc(e@, k@),
{
    match position(e, k) {
        Some(j) => Some(e[j].1),
        None => None,
    }
}

fn lookup_all(e: &Vec<(String, usize)>, k: &String) -> (r: Vec<usize>)
    ensures
        r@.map_values(|v: usize| v as int) == assoc_all(e@, k@),
{
    let mut r: Vec<usize> = Vec::new();
    let mut i: usize = 0;
    while i < e.len()
        invariant
            i <= e@.len(),
            r@.map_values(|v: usize| v as int) == assoc_all(e@.take(i as int), k@),
        decreases e@.len() - i,
    {
        assert(e@.take(i + 1).drop_last() =~= e@.take(i as int));
        if e[i].0 == *k {
            let ghost before = r@;
            r.push(e[i].1);
            assert(r@.map_values(|v: usize| v as int) =~= before.map_values(|v: usize| v as int).push(
                e@[i as int].1 as int,
            ));
        }
        i = i + 1;
    }
    assert(e@.take(e@.len() as int) =~= e@);
    r
}

/// Add a pair unless its key is there already.
fn insert_new(e: &mut Vec<(String, usize)>, k: String, v: usize)
    ensures
        forall|q: Seq<char>| #[trigger]
            assoc(final(e)@, q) == if assoc(old(e)@, q) is Some {
                assoc(old(e)@, q)
            } else if q == k@ {
                Some(v as int)
            } else {
                None
            },
{
    match position(e, &k) {
        Some(_) => {},
        None => {
            let ghost before = e@;
            e.push((k, v));
            assert(e@.drop_last() =~= before);
        },
    }
}

proof fn lemma_assoc_update(e: Seq<(String, usize)>, j: int, s: String, v: usize, q: Seq<char>)
    requires
        0 <= j < e.len(),
        e[j].0@ == s@,
        assoc(e.take(j), s@) is None,
    ensures
        assoc(e.update(j, (s, v)), q) == if q == s@ {
            Some(v as int)
        } else {
            assoc(e, q)
        },
    decreases e.len(),
{
    let u = e.update(j, (s, v));
    if j == e.len() - 1 {
        assert(u.drop_last() =~= e.drop_last());
        assert(e.take(j) =~= e.drop_last());
    } else {
        assert(u.drop_last() =~= e.drop_last().update(j, (s, v)));
        assert(e.drop_last().take(j) =~= e.take(j));
        lemma_assoc_update(e.drop_last(), j, s, v, q);
        if q == s@ {
            lemma_assoc_some(e.drop_last(), j, s@);
        }
    }
}

proof fn lemma_assoc_some(e: Seq<(String, usize)>, j: int, k: Seq<char>)
    requires
        0 <= j < e.len(),
        e[j].0@ == k,
    ensures
        assoc(e, k) is Some,
    decreases e.len(),
{
    if j < e.len() - 1 {
        lemma_assoc_some(e.drop_last(), j, k);
    }
}


// ---------------------------------------------------------------------------
// The index
// ---------------------------------------------------------------------------

/// The text of a component's summary, empty where it has none.
pub open spec fn summary_text(c: Component) -> Seq<char> {
    match c.summary {
        Some(s) => s@,
        None => Seq::empty(),
    }
}

pub open spec fn lowered(ks: Seq<Seq<char>>) -> Seq<Seq<char>> {
    ks.map_values(|k: Seq<char>| text::lowercase_of(k))
}

/// The matched fields of one component, lower-cased once.
struct SearchRecord {
    name: String,
    id: String,
    summary: String,
    keywords: Vec<String>,
}

spec fn record_of(r: SearchRecord, c: Component) -> bool {
    &&& r.name@ == text::lowercase_of(c.name@)
    &&& r.id@ == text::lowercase_of(c.id@)
    &&& r.summary@ == text::lowercase_of(summary_text(c))
    &&& crate::model::strings_view(r.keywords@) == lowered(crate::model::strings_view(c.keywords@))
}

/// The lookups and the search over one list of components, as positions
/// into it.
pub struct Index {
    by_id: Vec<(String, usize)>,
    /// The chosen component per package: the desktop application, else the
    /// first listed.
    by_pkgname: Vec<(String, usize)>,
    /// Every component per package, in catalogue order.
    pkgname_pairs: Vec<(String, usize)>,
    /// Both the full ref and its id segment.
    by_bundle: Vec<(String, usize)>,
    search: Vec<SearchRecord>,
    built_from: Ghost<Seq<Component>>,
}

fn is_desktop(c: &Component) -> (r: bool)
    ensures
        r == desktop_type(c.component_type@),
{
    let t = text::chars(c.component_type.as_str());
    text::eq_str(t.as_slice(), "desktop-application") || text::eq_str(t.as_slice(), "desktop")
}

/// The id segment of `app/<id>/<arch>/<branch>` or `runtime/<id>/...`.
pub fn bundle_id(bundle: &str) -> (r: Option<String>)
    ensures
        crate::model::opt_view(r) == bundle_id_spec(bundle@),
{
    let all = text::chars(bundle);
    let parts = text::split_char(all.as_slice(), '/');
    proof {
        reveal_with_fuel(text::split, 1);
    }
    assert(text::views(parts@).len() == parts@.len());
    if parts.len() >= 2 {
        assert(text::views(parts@)[0] == parts@[0]@ && text::views(parts@)[1] == parts@[1]@);
        let kind_ok = text::eq_str(parts[0].as_slice(), "app") || text::eq_str(
            parts[0].as_slice(),
            "runtime",
        );
        if kind_ok && parts[1].len() > 0 {
            return Some(text::string_of(parts[1].as_slice()));
        }
    }
    None
}

fn lowered_keywords(ks: &Vec<String>) -> (r: Vec<String>)
    ensures
        crate::model::strings_view(r@) == lowered(crate::model::strings_view(ks@)),
{
    let mut r: Vec<String> = Vec::new();
    let mut i: usize = 0;
    while i < ks.len()
        invariant
            i <= ks@.len(),
            crate::model::strings_view(r@) == lowered(crate::model::strings_view(ks@.take(i as int))),
        decreases ks@.len() - i,
    {
        let ghost before = r@;
        let l = text::lowercase(ks[i].as_str());
        r.push(l);
        assert(crate::model::strings_view(r@) =~= crate::model::strings_view(before).push(l@));
        assert(crate::model::strings_view(ks@.take(i + 1)) =~= crate::model::strings_view(
            ks@.take(i as int),
        ).push(ks@[i as int]@));
        assert(lowered(crate::model::strings_view(ks@.take(i + 1))) =~= lowered(
            crate::model::strings_view(ks@.take(i as int)),
        ).push(text::lowercase_of(ks@[i as int]@)));
        i = i + 1;
    }
    assert(ks@.take(ks@.len() as int) =~= ks@);
    r
}

fn record_for(c: &Component) -> (r: SearchRecord)
    ensures
        record_of(r, *c),
{
    let summary = match &c.summary {
        Some(s) => text::lowercase(s.as_str()),
        None => text::lowercase(""),
    };
    proof {
        reveal_strlit("");
        assert(""@ =~= Seq::<char>::empty());
    }
    SearchRecord {
        name: text::lowercase(c.name.as_str()),
        id: text::lowercase(c.id.as_str()),
        summary,
        keywords: lowered_keywords(&c.keywords),
    }
}

impl Index {
    /// The components the index was built over.
    pub closed spec fn components(&self) -> Seq<Component> {
        self.built_from@
    }

    #[verifier::type_invariant]
    spec fn inv(&self) -> bool {
        let cs = self.built_from@;
        &&& forall|k: Seq<char>| #[trigger] assoc(self.by_id@, k) == id_lookup(cs, k)
        &&& forall|k: Seq<char>| #[trigger] assoc(self.by_pkgname@, k) == pkgname_lookup(cs, k)
        &&& forall|k: Seq<char>| #[trigger] assoc_all(self.pkgname_pairs@, k) == pkgname_all_spec(cs, k)
        &&& forall|k: Seq<char>| #[trigger] assoc(self.by_bundle@, k) == bundle_lookup(cs, k)
        &&& self.search@.len() == cs.len()
        &&& forall|i: int| 0 <= i < cs.len() ==> record_of(#[trigger] self.search@[i], cs[i])
    }

    /// Index a list of components in one pass.
    pub fn build(components: &[Component]) -> (r: Index)
        ensures
            r.components() == components@,
    {
        let ghost cs = components@;
        let mut by_id: Vec<(String, usize)> = Vec::new();
        let mut by_pkgname: Vec<(String, usize)> = Vec::new();
        let mut pkgname_pairs: Vec<(String, usize)> = Vec::new();
        let mut by_bundle: Vec<(String, usize)> = Vec::new();
        let mut search: Vec<SearchRecord> = Vec::new();
        let mut i: usize = 0;
        while i < components.len()
            invariant
                cs == components@,
                i <= cs.len(),
                forall|k: Seq<char>| #[trigger] assoc(by_id@, k) == first_where(i as nat, id_is(cs, k)),
                forall|k: Seq<char>| #[trigger] assoc(by_pkgname@, k) == chosen_upto(cs, i as nat, k),
                forall|k: Seq<char>| #[trigger] assoc_all(pkgname_pairs@, k) == all_where(i as nat, pkg_is(cs, k)),
                forall|k: Seq<char>| #[trigger] assoc(by_bundle@, k) == first_where(i as nat, bundle_has(cs, k)),
                search@.len() == i,
                forall|j: int| 0 <= j < i ==> record_of(#[trigger] search@[j], cs[j]),
            decreases cs.len() - i,
        {
            let c = &components[i];
            insert_new(&mut by_id, c.id.clone(), i);
            assert forall|k: Seq<char>| #[trigger] assoc(by_id@, k) == first_where((i + 1) as nat, id_is(cs, k)) by {
                assert(id_is(cs, k)(i as int) == (cs[i as int].id@ == k));
            }
            match &c.pkgname {
                Some(p) => {
                    let ghost pairs_before = pkgname_pairs@;
                    pkgname_pairs.push((p.clone(), i));
                    assert(pkgname_pairs@.drop_last() =~= pairs_before);
                    assert forall|k: Seq<char>| #[trigger] assoc_all(pkgname_pairs@, k) == all_where((i + 1) as nat, pkg_is(cs, k)) by {
                        assert(pkg_is(cs, k)(i as int) == (p@ == k));
                        assert(assoc_all(pkgname_pairs@, k) == if p@ == k {
                            assoc_all(pairs_before, k).push(i as int)
                        } else {
                            assoc_all(pairs_before, k)
                        });
                        assert(assoc_all(pairs_before, k) == all_where(i as nat, pkg_is(cs, k)));
                    }
                    let ghost chosen_before = by_pkgname@;
                    let desk = is_desktop(c);
                    proof {
                        lemma_first_where(i as nat, desktop_pkg(cs, p@));
                        lemma_first_where(i as nat, pkg_is(cs, p@));
                        assert(pkg_is(cs, p@)(i as int));
                        assert(desktop_pkg(cs, p@)(i as int) == desk);
                    }
                    match position(&by_pkgname, p) {
                        None => {
                            by_pkgname.push((p.clone(), i));
                            assert(by_pkgname@.drop_last() =~= chosen_before);
                            assert forall|q: Seq<char>| #[trigger] assoc(by_pkgname@, q) == if q == p@ {
                                chosen_upto(cs, (i + 1) as nat, p@)
                            } else {
                                assoc(chosen_before, q)
                            } by {}
                        },
                        Some(j) => {
                            let cur = by_pkgname[j].1;
                            proof {
                                assert(assoc(chosen_before, p@) == Some(cur as int));
                                assert(assoc(chosen_before, p@) == chosen_upto(cs, i as nat, p@));
                                let fd = first_where(i as nat, desktop_pkg(cs, p@));
                                let fm = first_where(i as nat, pkg_is(cs, p@));
                                if fd is None {
                                    let m = fm->0;
                                    assert(pkg_is(cs, p@)(m));
                                    assert(!desktop_pkg(cs, p@)(m));
                                    assert(!desktop_type(cs[m].component_type@));
                                } else {
                                    let d = fd->0;
                                    assert(desktop_pkg(cs, p@)(d));
                                    assert(desktop_type(cs[d].component_type@));
                                }
                            }
                            if !is_desktop(&components[cur]) && desk {
                                let key = by_pkgname[j].0.clone();
                                by_pkgname.set(j, (key, i));
                                assert forall|q: Seq<char>| #[trigger] assoc(by_pkgname@, q) == if q == p@ {
                                    chosen_upto(cs, (i + 1) as nat, p@)
                                } else {
                                    assoc(chosen_before, q)
                                } by {
                                    lemma_assoc_update(chosen_before, j as int, key, i, q);
                                }
                            } else {
                                assert forall|q: Seq<char>| #[trigger] assoc(by_pkgname@, q) == if q == p@ {
                                    chosen_upto(cs, (i + 1) as nat, p@)
                                } else {
                                    assoc(chosen_before, q)
                                } by {}
                            }
                        },
                    }
                    assert forall|k: Seq<char>| #[trigger] assoc(by_pkgname@, k) == chosen_upto(cs, (i + 1) as nat, k) by {
                        if k != p@ {
                            assert(!pkg_is(cs, k)(i as int));
                            assert(!desktop_pkg(cs, k)(i as int));
                            assert(assoc(chosen_before, k) == chosen_upto(cs, i as nat, k));
                        }
                    }
                },
                None => {
                    assert forall|k: Seq<char>| #[trigger] assoc(by_pkgname@, k) == chosen_upto(cs, (i + 1) as nat, k) by {
                        assert(!pkg_is(cs, k)(i as int));
                        assert(!desktop_pkg(cs, k)(i as int));
                        assert(assoc(by_pkgname@, k) == chosen_upto(cs, i as nat, k));
                    }
                    assert forall|k: Seq<char>| #[trigger] assoc_all(pkgname_pairs@, k) == all_where((i + 1) as nat, pkg_is(cs, k)) by {
                        assert(!pkg_is(cs, k)(i as int));
                    }
                },
            }
            match &c.bundle {
                Some(b) => {
                    let ghost e0 = by_bundle@;
                    insert_new(&mut by_bundle, b.clone(), i);
                    let ghost e1 = by_bundle@;
                    let id = bundle_id(b.as_str());
                    match id {
                        Some(x) => {
                            let ghost xv = x@;
                            insert_new(&mut by_bundle, x, i);
                            assert forall|k: Seq<char>| #[trigger] assoc(by_bundle@, k) == first_where((i + 1) as nat, bundle_has(cs, k)) by {
                                assert(bundle_keys(cs[i as int]) == seq![b@] + seq![xv]);
                                assert(bundle_has(cs, k)(i as int) == (k == b@ || k == xv)) by {
                                    assert((seq![b@] + seq![xv])[0] == b@);
                                    assert((seq![b@] + seq![xv])[1] == xv);
                                }
                                assert(assoc(e1, k) == if assoc(e0, k) is Some { assoc(e0, k) } else if k == b@ { Some(i as int) } else { None });
                            }
                        },
                        None => {
                            assert forall|k: Seq<char>| #[trigger] assoc(by_bundle@, k) == first_where((i + 1) as nat, bundle_has(cs, k)) by {
                                assert(bundle_keys(cs[i as int]) =~= seq![b@]);
                                assert(bundle_has(cs, k)(i as int) == (k == b@)) by {
                                    assert(seq![b@][0] == b@);
                                }
                            }
                        },
                    }
                },
                None => {
                    assert forall|k: Seq<char>| #[trigger] assoc(by_bundle@, k) == first_where((i + 1) as nat, bundle_has(cs, k)) by {
                        assert(bundle_keys(cs[i as int]) =~= Seq::<Seq<char>>::empty());
                        assert(!bundle_has(cs, k)(i as int));
                    }
                },
            }
            search.push(record_for(c));
            i = i + 1;
        }
        Index { by_id, by_pkgname, pkgname_pairs, by_bundle, search, built_from: Ghost(cs) }
    }

    /// Parse one catalogue file's bytes (gzip or plain XML), resolving
    /// cached icons against `icons` and tagging every component with
    /// `origin` where given.
    pub fn parse(bytes: &[u8], icons: Option<reader::IconFiles>, origin: Option<&str>) -> (r: Result<
        Vec<Component>,
        crate::model::Error,
    >)
        ensures
            parser::outcome_given(
                parser::catalogue_outcome(bytes@, reader::icons_view(icons), parser::origin_view(origin)),
                r,
            ),
            r matches Err(e) ==> e.message@ == reader::truncated_message() || exists|p: u64, f: parser::XmlFailure|
                e.message@ == parser::xml_error_message(p, f),
            r matches Ok(v) ==> parser::read_well(v@, parser::origin_view(origin)),
    {
        parser::parse(bytes, icons, origin)
    }

    /// The first component with this id.
    pub fn by_id(&self, id: &str) -> (r: Option<usize>)
        ensures
            opt_int(r) == id_lookup(self.components(), id@),
    {
        proof {
            use_type_invariant(self);
        }
        lookup(&self.by_id, &text::string_from(id))
    }

    /// The component a package is shown as.
    pub fn by_pkgname(&self, pkgname: &str) -> (r: Option<usize>)
        ensures
            opt_int(r) == pkgname_lookup(self.components(), pkgname@),
    {
        proof {
            use_type_invariant(self);
        }
        lookup(&self.by_pkgname, &text::string_from(pkgname))
    }

    /// Every component of a package, in catalogue order.
    pub fn by_pkgname_all(&self, pkgname: &str) -> (r: Vec<usize>)
        ensures
            r@.map_values(|v: usize| v as int) == pkgname_all_spec(self.components(), pkgname@),
    {
        proof {
            use_type_invariant(self);
        }
        lookup_all(&self.pkgname_pairs, &text::string_from(pkgname))
    }

    /// By Flatpak ref, or by just its id segment.
    pub fn by_bundle(&self, bundle: &str) -> (r: Option<usize>)
        ensures
            opt_int(r) == bundle_lookup(self.components(), bundle@),
    {
        proof {
            use_type_invariant(self);
        }
        lookup(&self.by_bundle, &text::string_from(bundle))
    }
}


// ---------------------------------------------------------------------------
// The search
// ---------------------------------------------------------------------------

/// How well lower-cased fields match a lower-cased query, best highest:
/// the name exactly, the name's start, anywhere in the name, anywhere in
/// the id, a keyword exactly, anywhere in the summary; 0 for no match. A
/// match on several fields scores its best one.
pub open spec fn score_fields(name: Seq<char>, id: Seq<char>, summary: Seq<char>, keywords: Seq<Seq<char>>, q: Seq<char>) -> nat {
    if name == q {
        6
    } else if q.is_prefix_of(name) {
        5
    } else if text::contains_seq(name, q) {
        4
    } else if text::contains_seq(id, q) {
        3
    } else if keywords.contains(q) {
        2
    } else if text::contains_seq(summary, q) {
        1
    } else {
        0
    }
}

pub open spec fn score_spec(c: Component, q: Seq<char>) -> nat {
    score_fields(
        text::lowercase_of(c.name@),
        text::lowercase_of(c.id@),
        text::lowercase_of(summary_text(c)),
        lowered(crate::model::strings_view(c.keywords@)),
        q,
    )
}

/// The length in bytes of the lower-cased name: the shorter is the closer
/// match.
pub open spec fn name_len(c: Component) -> nat {
    vstd::utf8::encode_utf8(text::lowercase_of(c.name@)).len()
}

pub open spec fn is_hit(cs: Seq<Component>, q: Seq<char>, i: int) -> bool {
    0 <= i < cs.len() && score_spec(cs[i], q) > 0
}

/// Whether `a` ranks before `b`: a better score, then an application over
/// an add-on, then the shorter name, then catalogue order, so the result is
/// stable between runs.
pub open spec fn ranks_before(cs: Seq<Component>, q: Seq<char>, a: int, b: int) -> bool {
    let sa = score_spec(cs[a], q);
    let sb = score_spec(cs[b], q);
    ||| sa > sb
    ||| sa == sb && cs[a].is_app && !cs[b].is_app
    ||| sa == sb && cs[a].is_app == cs[b].is_app && name_len(cs[a]) < name_len(cs[b])
    ||| sa == sb && cs[a].is_app == cs[b].is_app && name_len(cs[a]) == name_len(cs[b]) && a < b
}

/// The search's answer `r` for a lower-cased, trimmed query: nothing for a
/// blank query or a limit of nothing; else matches only, best first, and
/// no match left out that would rank before one taken, nor while there is
/// room.
pub open spec fn search_spec(cs: Seq<Component>, q: Seq<char>, limit: nat, r: Seq<usize>) -> bool {
    if q.len() == 0 || limit == 0 {
        r.len() == 0
    } else {
        &&& r.len() <= limit
        &&& forall|k: int| 0 <= k < r.len() ==> is_hit(cs, q, #[trigger] r[k] as int)
        &&& forall|a: int, b: int| 0 <= a < b < r.len() ==> ranks_before(cs, q, #[trigger] r[a] as int, #[trigger] r[b] as int)
        &&& forall|i: int| is_hit(cs, q, i) && !r.contains(i as usize) ==> r.len() == limit && forall|k: int|
            0 <= k < r.len() ==> ranks_before(cs, q, #[trigger] r[k] as int, i)
    }
}

proof fn lemma_rank_order(cs: Seq<Component>, q: Seq<char>, a: int, b: int, c: int)
    ensures
        a != b ==> (ranks_before(cs, q, a, b) || ranks_before(cs, q, b, a)),
        !(ranks_before(cs, q, a, b) && ranks_before(cs, q, b, a)),
        ranks_before(cs, q, a, b) && ranks_before(cs, q, b, c) ==> ranks_before(cs, q, a, c),
{
}

fn contains_word(ws: &Vec<String>, q: &[char]) -> (r: bool)
    ensures
        r == crate::model::strings_view(ws@).contains(q@),
{
    let ghost v = crate::model::strings_view(ws@);
    let mut i: usize = 0;
    while i < ws.len()
        invariant
            i <= ws@.len(),
            v == crate::model::strings_view(ws@),
            forall|j: int| 0 <= j < i ==> v[j] != q@,
        decreases ws@.len() - i,
    {
        let w = text::chars(ws[i].as_str());
        if text::eq(w.as_slice(), q) {
            assert(v[i as int] == q@);
            return true;
        }
        i = i + 1;
    }
    false
}

fn score(r: &SearchRecord, q: &[char]) -> (s: u8)
    ensures
        s as nat == score_fields(r.name@, r.id@, r.summary@, crate::model::strings_view(r.keywords@), q@),
{
    let name = text::chars(r.name.as_str());
    if text::eq(name.as_slice(), q) {
        return 6;
    }
    if text::starts_with(name.as_slice(), q) {
        return 5;
    }
    if text::contains(name.as_slice(), q) {
        return 4;
    }
    let id = text::chars(r.id.as_str());
    if text::contains(id.as_slice(), q) {
        return 3;
    }
    if contains_word(&r.keywords, q) {
        return 2;
    }
    let summary = text::chars(r.summary.as_str());
    if text::contains(summary.as_slice(), q) {
        return 1;
    }
    0
}

impl Index {
    fn before(&self, components: &[Component], scores: &Vec<u8>, a: usize, b: usize, Ghost(q): Ghost<Seq<char>>) -> (r: bool)
        requires
            components@ == self.components(),
            a < scores@.len() <= components@.len(),
            b < scores@.len(),
            forall|j: int| 0 <= j < scores@.len() ==> #[trigger] scores@[j] as nat == score_spec(components@[j], q),
        ensures
            r == ranks_before(components@, q, a as int, b as int),
    {
        proof {
            use_type_invariant(self);
            assert(record_of(self.search@[a as int], components@[a as int]));
            assert(record_of(self.search@[b as int], components@[b as int]));
        }
        let sa = scores[a];
        let sb = scores[b];
        if sa != sb {
            return sa > sb;
        }
        let aa = components[a].is_app;
        let ab = components[b].is_app;
        if aa != ab {
            return aa;
        }
        let la = self.search[a].name.as_str().as_bytes().len();
        let lb = self.search[b].name.as_str().as_bytes().len();
        if la != lb {
            return la < lb;
        }
        a < b
    }

    /// Positions of the best matches for a query, best first, at most
    /// `limit` of them.
    pub fn search(&self, components: &[Component], query: &str, limit: usize) -> (r: Vec<usize>)
        requires
            components@ == self.components(),
        ensures
            search_spec(self.components(), text::lowercase_of(text::trim(query@)), limit as nat, r@),
    {
        proof {
            use_type_invariant(self);
        }
        let ghost cs = components@;
        let all = text::chars(query);
        let trimmed = text::trim_chars(all.as_slice());
        let lowered_query = text::lowercase(text::string_of(trimmed.as_slice()).as_str());
        let q = text::chars(lowered_query.as_str());
        let ghost qv = q@;
        if q.len() == 0 || limit == 0 {
            return Vec::new();
        }
        let mut scores: Vec<u8> = Vec::new();
        let mut out: Vec<usize> = Vec::new();
        let mut i: usize = 0;
        while i < components.len()
            invariant
                cs == components@,
                cs == self.components(),
                self.search@.len() == cs.len(),
                forall|j: int| 0 <= j < cs.len() ==> record_of(#[trigger] self.search@[j], cs[j]),
                qv == q@,
                i <= cs.len(),
                scores@.len() == i,
                forall|j: int| 0 <= j < i ==> #[trigger] scores@[j] as nat == score_spec(cs[j], qv),
                forall|k: int| 0 <= k < out@.len() ==> (#[trigger] out@[k] as int) < i && is_hit(cs, qv, out@[k] as int),
                forall|a: int, b: int| 0 <= a < b < out@.len() ==> ranks_before(cs, qv, #[trigger] out@[a] as int, #[trigger] out@[b] as int),
                forall|x: int| 0 <= x < i && is_hit(cs, qv, x) ==> out@.contains(x as usize),
            decreases cs.len() - i,
        {
            assert(record_of(self.search@[i as int], cs[i as int]));
            let s = score(&self.search[i], q.as_slice());
            scores.push(s);
            assert(scores@[i as int] as nat == score_spec(cs[i as int], qv));
            if s > 0 {
                let mut p: usize = 0;
                while p < out.len() && !self.before(components, &scores, i, out[p], Ghost(qv))
                    invariant
                        cs == components@,
                        cs == self.components(),
                        p <= out@.len(),
                        i < cs.len(),
                        scores@.len() == i + 1,
                        forall|j: int| 0 <= j < scores@.len() ==> #[trigger] scores@[j] as nat == score_spec(cs[j], qv),
                        forall|k: int| 0 <= k < out@.len() ==> (#[trigger] out@[k] as int) < i,
                        forall|k: int| 0 <= k < p ==> !ranks_before(cs, qv, i as int, #[trigger] out@[k] as int),
                    decreases out@.len() - p,
                {
                    p = p + 1;
                }
                let ghost before = out@;
                out.insert(p, i);
                proof {
                    assert forall|k: int| 0 <= k < p implies ranks_before(cs, qv, #[trigger] before[k] as int, i as int) by {
                        lemma_rank_order(cs, qv, before[k] as int, i as int, i as int);
                    }
                    if p < before.len() {
                        assert(ranks_before(cs, qv, i as int, before[p as int] as int));
                        assert forall|k: int| p <= k < before.len() implies ranks_before(cs, qv, i as int, #[trigger] before[k] as int) by {
                            if k > p {
                                lemma_rank_order(cs, qv, i as int, before[p as int] as int, before[k] as int);
                            }
                        }
                    }
                    assert forall|a: int, b: int| 0 <= a < b < out@.len() implies ranks_before(cs, qv, #[trigger] out@[a] as int, #[trigger] out@[b] as int) by {
                        if b < p {
                            assert(out@[a] == before[a] && out@[b] == before[b]);
                        } else if b == p {
                            assert(out@[a] == before[a]);
                        } else if a < p {
                            assert(out@[a] == before[a] && out@[b] == before[b - 1]);
                        } else if a == p {
                            assert(out@[b] == before[b - 1]);
                        } else {
                            assert(out@[a] == before[a - 1] && out@[b] == before[b - 1]);
                        }
                    }
                    assert forall|x: int| 0 <= x < i + 1 && is_hit(cs, qv, x) implies out@.contains(x as usize) by {
                        if x < i {
                            assert(before.contains(x as usize));
                            let k = choose|k: int| 0 <= k < before.len() && before[k] == x as usize;
                            if k < p {
                                assert(out@[k] == x as usize);
                            } else {
                                assert(out@[k + 1] == x as usize);
                            }
                        } else {
                            assert(out@[p as int] == i);
                        }
                    }
                    assert forall|k: int| 0 <= k < out@.len() implies (#[trigger] out@[k] as int) < i + 1 && is_hit(cs, qv, out@[k] as int) by {
                        if k < p {
                            assert(out@[k] == before[k]);
                        } else if k > p {
                            assert(out@[k] == before[k - 1]);
                        }
                    }
                }
            }
            i = i + 1;
        }
        let ghost full = out@;
        out.truncate(limit);
        proof {
            assert forall|x: int| is_hit(cs, qv, x) && !out@.contains(x as usize) implies out@.len() == limit && forall|k: int|
                0 <= k < out@.len() ==> ranks_before(cs, qv, #[trigger] out@[k] as int, x) by {
                assert(full.contains(x as usize));
                let p = choose|p: int| 0 <= p < full.len() && full[p] == x as usize;
                if p < limit {
                    assert(out@[p] == x as usize);
                }
                assert forall|k: int| 0 <= k < out@.len() implies ranks_before(cs, qv, #[trigger] out@[k] as int, x) by {
                    assert(out@[k] == full[k]);
                }
            }
        }
        out
    }
}


// ---------------------------------------------------------------------------
// The catalogue
// ---------------------------------------------------------------------------

/// Every component this machine knows about, indexed.
pub struct Catalogue {
    components: Vec<Component>,
    index: Index,
}

impl View for Catalogue {
    type V = Seq<Component>;

    closed spec fn view(&self) -> Seq<Component> {
        self.components@
    }
}

impl Catalogue {
    #[verifier::type_invariant]
    spec fn indexed(&self) -> bool {
        self.index.components() == self.components@
    }

    /// A catalogue of these components, in this order.
    pub fn from_components(components: Vec<Component>) -> (c: Catalogue)
        ensures
            c@ == components@,
    {
        let index = Index::build(components.as_slice());
        Catalogue { components, index }
    }

    /// Parse one catalogue file's bytes (gzip or plain XML), resolving
    /// cached icons against `icons` and tagging every component with
    /// `origin` where given.
    pub fn parse(bytes: &[u8], icons: Option<reader::IconFiles>, origin: Option<&str>) -> (r: Result<
        Vec<Component>,
        crate::model::Error,
    >)
        ensures
            parser::outcome_given(
                parser::catalogue_outcome(bytes@, reader::icons_view(icons), parser::origin_view(origin)),
                r,
            ),
            r matches Err(e) ==> e.message@ == reader::truncated_message() || exists|p: u64, f: parser::XmlFailure|
                e.message@ == parser::xml_error_message(p, f),
            r matches Ok(v) ==> parser::read_well(v@, parser::origin_view(origin)),
    {
        parser::parse(bytes, icons, origin)
    }

    /// The first component with this id.
    pub fn by_id(&self, id: &str) -> (r: Option<&Component>)
        ensures
            match id_lookup(self@, id@) {
                Some(i) => r matches Some(c) && *c == self@[i],
                None => r is None,
            },
    {
        proof {
            use_type_invariant(self);
        }
        match self.index.by_id(id) {
            Some(i) => {
                proof {
                    lemma_first_where(self@.len(), id_is(self@, id@));
                }
                Some(&self.components[i])
            },
            None => None,
        }
    }

    /// The component a distribution package is shown as.
    pub fn by_pkgname(&self, pkgname: &str) -> (r: Option<&Component>)
        ensures
            match pkgname_lookup(self@, pkgname@) {
                Some(i) => r matches Some(c) && *c == self@[i],
                None => r is None,
            },
    {
        proof {
            use_type_invariant(self);
        }
        match self.index.by_pkgname(pkgname) {
            Some(i) => {
                proof {
                    lemma_first_where(self@.len(), desktop_pkg(self@, pkgname@));
                    lemma_first_where(self@.len(), pkg_is(self@, pkgname@));
                }
                Some(&self.components[i])
            },
            None => None,
        }
    }

    /// By Flatpak ref, `app/<id>/<arch>/<branch>`, or by just the id part.
    pub fn by_bundle(&self, bundle: &str) -> (r: Option<&Component>)
        ensures
            match bundle_lookup(self@, bundle@) {
                Some(i) => r matches Some(c) && *c == self@[i],
                None => r is None,
            },
    {
        proof {
            use_type_invariant(self);
        }
        match self.index.by_bundle(bundle) {
            Some(i) => {
                proof {
                    lemma_first_where(self@.len(), bundle_has(self@, bundle@));
                }
                Some(&self.components[i])
            },
            None => None,
        }
    }

    /// Components matching the query in name, id, summary or keywords, best
    /// first.
    pub fn search(&self, query: &str, limit: usize) -> (r: Vec<&Component>)
        ensures
            exists|s: Seq<usize>|
                search_spec(self@, text::lowercase_of(text::trim(query@)), limit as nat, s) && r@.len()
                    == s.len() && forall|k: int| 0 <= k < s.len() ==> *(#[trigger] r@[k]) == self@[s[k] as int],
    {
        proof {
            use_type_invariant(self);
        }
        let found = self.index.search(self.components.as_slice(), query, limit);
        let ghost q = text::lowercase_of(text::trim(query@));
        let mut r: Vec<&Component> = Vec::new();
        let mut k: usize = 0;
        while k < found.len()
            invariant
                k <= found@.len(),
                search_spec(self@, q, limit as nat, found@),
                r@.len() == k,
                forall|j: int| 0 <= j < k ==> *(#[trigger] r@[j]) == self@[found@[j] as int],
            decreases found@.len() - k,
        {
            proof {
                if q.len() == 0 || limit == 0 {
                    assert(found@.len() == 0);
                }
                assert(is_hit(self@, q, found@[k as int] as int));
            }
            r.push(&self.components[found[k]]);
            k = k + 1;
        }
        r
    }

    pub fn components(&self) -> (r: &[Component])
        ensures
            r@ == self@,
    {
        self.components.as_slice()
    }

    pub fn is_empty(&self) -> (r: bool)
        ensures
            r == (self@.len() == 0),
    {
        self.components.len() == 0
    }

    /// The standard XML directories, in the order they are read.
    pub fn system_xml_dirs() -> (r: Vec<String>)
        ensures
            crate::model::strings_view(r@) == seq![
                "/usr/share/swcatalog/xml"@,
                "/var/lib/swcatalog/xml"@,
                "/usr/share/app-info/xmls"@,
                "/var/lib/app-info/xmls"@,
            ],
    {
        let mut r: Vec<String> = Vec::new();
        r.push(text::string_from("/usr/share/swcatalog/xml"));
        r.push(text::string_from("/var/lib/swcatalog/xml"));
        r.push(text::string_from("/usr/share/app-info/xmls"));
        r.push(text::string_from("/var/lib/app-info/xmls"));
        assert(crate::model::strings_view(r@) =~= seq![
            "/usr/share/swcatalog/xml"@,
            "/var/lib/swcatalog/xml"@,
            "/usr/share/app-info/xmls"@,
            "/var/lib/app-info/xmls"@,
        ]);
        r
    }
}

impl Default for Catalogue {
    fn default() -> (c: Catalogue)
        ensures
            c@.len() == 0,
    {
        Catalogue::from_components(Vec::new())
    }
}

} // verus!
