//! The shared vocabulary: where software comes from, what is asked of it,
//! and the steps that carry a request out.

use vstd::prelude::*;
use crate::text;

verus! {

/// One place software comes from, in interface order.
#[derive(Clone, Copy, Debug, PartialEq, Eq, Hash, Structural)]
pub enum SourceKind {
    Pacman,
    Aur,
    Flatpak,
    Snap,
    Apt,
    Dnf,
    Github,
    Fwupd,
    Chwd,
}

/// The interface order of the sources.
pub open spec fn all_kinds() -> Seq<SourceKind> {
    seq![
        SourceKind::Pacman,
        SourceKind::Aur,
        SourceKind::Flatpak,
        SourceKind::Snap,
        SourceKind::Apt,
        SourceKind::Dnf,
        SourceKind::Github,
        SourceKind::Fwupd,
        SourceKind::Chwd,
    ]
}

/// The identifier a source is stored and sent under.
pub open spec fn kind_id(k: SourceKind) -> Seq<char> {
    match k {
        SourceKind::Pacman => "pacman"@,
        SourceKind::Aur => "aur"@,
        SourceKind::Flatpak => "flatpak"@,
        SourceKind::Snap => "snap"@,
        SourceKind::Apt => "apt"@,
        SourceKind::Dnf => "dnf"@,
        SourceKind::Github => "github"@,
        SourceKind::Fwupd => "fwupd"@,
        SourceKind::Chwd => "chwd"@,
    }
}

/// How a sentence names a source.
pub open spec fn kind_label(k: SourceKind) -> Seq<char> {
    match k {
        SourceKind::Pacman => "pacman"@,
        SourceKind::Aur => "AUR"@,
        SourceKind::Flatpak => "Flatpak"@,
        SourceKind::Snap => "Snap"@,
        SourceKind::Apt => "apt"@,
        SourceKind::Dnf => "dnf"@,
        SourceKind::Github => "GitHub"@,
        SourceKind::Fwupd => "firmware"@,
        SourceKind::Chwd => "chwd"@,
    }
}

/// The source whose identifier is `text`, if any.
pub open spec fn kind_of_id(text: Seq<char>) -> Option<SourceKind> {
    if exists|i: int| 0 <= i < all_kinds().len() && kind_id(all_kinds()[i]) == text {
        Some(
            all_kinds()[choose|i: int| 0 <= i < all_kinds().len() && kind_id(all_kinds()[i]) == text],
        )
    } else {
        None
    }
}

/// No two sources share an identifier.
pub proof fn lemma_kind_ids_distinct(a: SourceKind, b: SourceKind)
    ensures
        kind_id(a) == kind_id(b) ==> a == b,
{
    reveal_strlit("pacman");
    reveal_strlit("aur");
    reveal_strlit("flatpak");
    reveal_strlit("snap");
    reveal_strlit("apt");
    reveal_strlit("dnf");
    reveal_strlit("github");
    reveal_strlit("fwupd");
    reveal_strlit("chwd");
    if kind_id(a) == kind_id(b) && a != b {
        assert(kind_id(a).len() == kind_id(b).len());
        assert(kind_id(a)[0] == kind_id(b)[0]);
        assert(kind_id(a)[1] == kind_id(b)[1]);
    }
}

/// The identifier read back is the source: `parse` undoes `id`.
pub proof fn lemma_kind_id_parses_back(k: SourceKind)
    ensures
        kind_of_id(kind_id(k)) == Some(k),
{
    let i: int = match k {
        SourceKind::Pacman => 0,
        SourceKind::Aur => 1,
        SourceKind::Flatpak => 2,
        SourceKind::Snap => 3,
        SourceKind::Apt => 4,
        SourceKind::Dnf => 5,
        SourceKind::Github => 6,
        SourceKind::Fwupd => 7,
        SourceKind::Chwd => 8,
    };
    assert(all_kinds()[i] == k);
    let j = choose|j: int| 0 <= j < all_kinds().len() && kind_id(all_kinds()[j]) == kind_id(k);
    lemma_kind_ids_distinct(all_kinds()[j], k);
}

impl SourceKind {
    /// Every source, in interface order.
    pub fn all() -> (r: Vec<SourceKind>)
        ensures
            r@ == all_kinds(),
    {
        let r = vec![
            SourceKind::Pacman,
            SourceKind::Aur,
            SourceKind::Flatpak,
            SourceKind::Snap,
            SourceKind::Apt,
            SourceKind::Dnf,
            SourceKind::Github,
            SourceKind::Fwupd,
            SourceKind::Chwd,
        ];
        assert(r@ =~= all_kinds());
        r
    }

    pub fn id(self) -> (r: &'static str)
        ensures
            r@ == kind_id(self),
    {
        match self {
            SourceKind::Pacman => "pacman",
            SourceKind::Aur => "aur",
            SourceKind::Flatpak => "flatpak",
            SourceKind::Snap => "snap",
            SourceKind::Apt => "apt",
            SourceKind::Dnf => "dnf",
            SourceKind::Github => "github",
            SourceKind::Fwupd => "fwupd",
            SourceKind::Chwd => "chwd",
        }
    }

    pub fn label(self) -> (r: &'static str)
        ensures
            r@ == kind_label(self),
    {
        match self {
            SourceKind::Pacman => "pacman",
            SourceKind::Aur => "AUR",
            SourceKind::Flatpak => "Flatpak",
            SourceKind::Snap => "Snap",
            SourceKind::Apt => "apt",
            SourceKind::Dnf => "dnf",
            SourceKind::Github => "GitHub",
            SourceKind::Fwupd => "firmware",
            SourceKind::Chwd => "chwd",
        }
    }

    /// The source stored under `text`; identifiers are exact and lower case.
    pub fn parse(text: &str) -> (r: Option<SourceKind>)
        ensures
            r == kind_of_id(text@),
    {
        let t = text::chars(text);
        let kinds = SourceKind::all();
        let mut i: usize = 0;
        while i < kinds.len()
            invariant
                kinds@ == all_kinds(),
                t@ == text@,
                i <= kinds@.len(),
                forall|j: int| 0 <= j < i ==> kind_id(all_kinds()[j]) != text@,
            decreases kinds@.len() - i,
        {
            let k = kinds[i];
            if text::eq_str(t.as_slice(), k.id()) {
                proof {
                    let w = choose|j: int|
                        0 <= j < all_kinds().len() && kind_id(all_kinds()[j]) == text@;
                    lemma_kind_ids_distinct(all_kinds()[w], k);
                }
                return Some(k);
            }
            i = i + 1;
        }
        None
    }
}

/// What went wrong, in a sentence a user can act on.
#[derive(Clone, Debug, PartialEq, Eq)]
pub struct Error {
    pub message: String,
    pub source_kind: Option<SourceKind>,
}

impl Error {
    pub fn new(message: String) -> (e: Error)
        ensures
            e.message@ == message@,
            e.source_kind is None,
    {
        Error { message, source_kind: None }
    }

    pub fn from_source(kind: SourceKind, message: String) -> (e: Error)
        ensures
            e.message@ == message@,
            e.source_kind == Some(kind),
    {
        Error { message, source_kind: Some(kind) }
    }
}

/// A package as one source knows it.
#[derive(Clone, Debug, PartialEq, Eq, Hash)]
pub struct PackageRef {
    pub source: SourceKind,
    pub id: String,
}

/// What the user asked for.
#[derive(Clone, Debug, PartialEq, Eq)]
pub enum Op {
    Install { package: PackageRef },
    Remove { package: PackageRef },
    Update { package: PackageRef },
    UpdateAll { source: SourceKind },
    Refresh { source: SourceKind },
}

/// The source an operation goes to.
pub open spec fn op_source(op: Op) -> SourceKind {
    match op {
        Op::Install { package } => package.source,
        Op::Remove { package } => package.source,
        Op::Update { package } => package.source,
        Op::UpdateAll { source } => source,
        Op::Refresh { source } => source,
    }
}

impl Op {
    pub fn source(&self) -> (k: SourceKind)
        ensures
            k == op_source(*self),
    {
        match self {
            Op::Install { package } => package.source,
            Op::Remove { package } => package.source,
            Op::Update { package } => package.source,
            Op::UpdateAll { source } => *source,
            Op::Refresh { source } => *source,
        }
    }
}

/// A program with its arguments, environment and working directory.
#[derive(Clone, Debug, PartialEq, Eq)]
pub struct Command {
    pub program: String,
    pub args: Vec<String>,
    pub env: Vec<(String, String)>,
    pub cwd: Option<String>,
}

/// One thing the runner executes.
#[derive(Clone, Debug, PartialEq, Eq)]
pub struct Step {
    pub source: SourceKind,
    pub title: String,
    pub command: Command,
    pub needs_root: bool,
    /// How much of the progress bar the step is worth.
    pub weight: u32,
}

/// What the runner executes for a set of operations.
#[derive(Clone, Debug, PartialEq, Eq)]
pub struct Plan {
    pub id: String,
    pub ops: Vec<Op>,
    pub steps: Vec<Step>,
}

/// Whether this machine can use a source, with a reason when it cannot.
#[derive(Clone, Debug, PartialEq, Eq)]
pub struct SourceStatus {
    pub kind: SourceKind,
    pub available: bool,
    pub reason: Option<String>,
    pub detail: Option<String>,
}

/// What kind of thing a package is.
#[derive(Clone, Copy, Debug, PartialEq, Eq, Hash, Structural)]
pub enum PackageKind {
    /// A desktop application.
    App,
    /// Anything else a user installs: a tool, a library.
    Package,
    /// What applications run on: a base snap, a Flatpak runtime.
    Runtime,
}

/// A picture, by address or by file.
#[derive(Clone, Debug, PartialEq, Eq)]
pub enum Picture {
    Url(String),
    File(String),
}

/// What a picture is: an address or a file, by its text.
pub enum PictureView {
    Url(Seq<char>),
    File(Seq<char>),
}

impl View for Picture {
    type V = PictureView;

    open spec fn view(&self) -> PictureView {
        match self {
            Picture::Url(u) => PictureView::Url(u@),
            Picture::File(f) => PictureView::File(f@),
        }
    }
}

/// The text of an optional string.
pub open spec fn opt_view(o: Option<String>) -> Option<Seq<char>> {
    match o {
        Some(s) => Some(s@),
        None => None,
    }
}

/// An optional picture by its view.
pub open spec fn opt_picture(o: Option<Picture>) -> Option<PictureView> {
    match o {
        Some(p) => Some(p@),
        None => None,
    }
}

/// One screenshot with what is known of it.
#[derive(Clone, Debug, PartialEq, Eq)]
pub struct Screenshot {
    pub image: Picture,
    pub thumbnail: Option<Picture>,
    pub caption: Option<String>,
    pub width: Option<u32>,
    pub height: Option<u32>,
}

/// A package as one source knows it, with everything the pages show.
#[derive(Clone, Debug, PartialEq, Eq)]
pub struct Package {
    pub source: SourceKind,
    pub id: String,
    pub name: String,
    pub kind: PackageKind,
    pub summary: Option<String>,
    pub description: Option<String>,
    pub version: Option<String>,
    pub installed: bool,
    pub installed_version: Option<String>,
    /// The repository, remote or channel it comes from.
    pub repo: Option<String>,
    pub licence: Option<String>,
    pub homepage: Option<String>,
    pub developer: Option<String>,
    /// Unix seconds of the last install or update.
    pub updated: Option<i64>,
    pub download_size: Option<u64>,
    pub installed_size: Option<u64>,
    pub icon: Option<Picture>,
    pub screenshots: Vec<Screenshot>,
    pub categories: Vec<String>,
    pub appstream_id: Option<String>,
    pub sandboxed: bool,
    /// Name and value pairs for the detail page.
    pub facts: Vec<(String, String)>,
}

impl Package {
    /// A package with nothing known beyond its source, id and name.
    pub fn new(source: SourceKind, id: String, name: String) -> (p: Package)
        ensures
            p.source == source,
            p.id@ == id@,
            p.name@ == name@,
            p.kind == PackageKind::Package,
            p.summary is None && p.description is None && p.version is None,
            !p.installed && p.installed_version is None,
            p.repo is None && p.licence is None && p.homepage is None && p.developer is None,
            p.updated is None && p.download_size is None && p.installed_size is None,
            p.icon is None && p.screenshots@.len() == 0 && p.categories@.len() == 0,
            p.appstream_id is None && !p.sandboxed && p.facts@.len() == 0,
    {
        Package {
            source,
            id,
            name,
            kind: PackageKind::Package,
            summary: None,
            description: None,
            version: None,
            installed: false,
            installed_version: None,
            repo: None,
            licence: None,
            homepage: None,
            developer: None,
            updated: None,
            download_size: None,
            installed_size: None,
            icon: None,
            screenshots: Vec::new(),
            categories: Vec::new(),
            appstream_id: None,
            sandboxed: false,
            facts: Vec::new(),
        }
    }
}

/// One pending update.
#[derive(Clone, Debug, PartialEq, Eq)]
pub struct Update {
    pub package: PackageRef,
    pub name: String,
    pub kind: PackageKind,
    pub summary: Option<String>,
    pub icon: Option<Picture>,
    pub from: Option<String>,
    pub to: String,
    pub download_size: Option<u64>,
    pub published: Option<i64>,
    /// Whether this is BAP Store itself.
    pub is_self: bool,
}

/// What machine this is.
#[derive(Clone, Debug, PartialEq, Eq)]
pub struct SystemInfo {
    pub distro_id: String,
    pub distro_like: Vec<String>,
    pub pretty_name: String,
    pub arch: String,
    pub desktop: Option<String>,
    pub session: Option<String>,
}

pub open spec fn arch_like(s: SystemInfo) -> bool {
    s.distro_id@ == "arch"@ || strings_view(s.distro_like@).contains("arch"@)
}

impl SystemInfo {
    /// Whether this is Arch or a distribution built on it.
    pub fn is_arch_like(&self) -> (r: bool)
        ensures
            r == arch_like(*self),
    {
        let id = text::chars(self.distro_id.as_str());
        if text::eq_str(id.as_slice(), "arch") {
            return true;
        }
        let ghost like = strings_view(self.distro_like@);
        let mut i: usize = 0;
        while i < self.distro_like.len()
            invariant
                like == strings_view(self.distro_like@),
                i <= self.distro_like@.len(),
                forall|j: int| 0 <= j < i ==> like[j] != "arch"@,
            decreases self.distro_like@.len() - i,
        {
            let w = text::chars(self.distro_like[i].as_str());
            if text::eq_str(w.as_slice(), "arch") {
                assert(like[i as int] == "arch"@);
                return true;
            }
            i = i + 1;
        }
        false
    }

    /// Whether this is Debian or a distribution built on it.
    pub fn is_debian_like(&self) -> (r: bool)
        ensures
            r == debian_like(*self),
    {
        let id = text::chars(self.distro_id.as_str());
        if text::eq_str(id.as_slice(), "debian") {
            return true;
        }
        let ghost like = strings_view(self.distro_like@);
        let mut i: usize = 0;
        while i < self.distro_like.len()
            invariant
                like == strings_view(self.distro_like@),
                i <= self.distro_like@.len(),
                forall|j: int| 0 <= j < i ==> like[j] != "debian"@,
            decreases self.distro_like@.len() - i,
        {
            let w = text::chars(self.distro_like[i].as_str());
            if text::eq_str(w.as_slice(), "debian") {
                assert(like[i as int] == "debian"@);
                return true;
            }
            i = i + 1;
        }
        false
    }
}

pub open spec fn debian_like(s: SystemInfo) -> bool {
    s.distro_id@ == "debian"@ || strings_view(s.distro_like@).contains("debian"@)
}

/// The Drivers page's data.
#[derive(Clone, Debug, PartialEq, Eq)]
pub struct DriversReport {
    /// The driver manager this distribution uses, if any.
    pub manager: Option<String>,
    pub manager_note: Option<String>,
    pub firmware_available: bool,
    pub firmware_note: Option<String>,
}

/// What the sources act on of the user's settings.
#[derive(Clone, Debug, PartialEq, Eq)]
pub struct Preferences {
    /// Flatpak installs go to the user's own installation.
    pub flatpak_user: bool,
    /// The AUR helper by name; `None` takes whichever is present.
    pub aur_helper: Option<String>,
}

impl Default for Preferences {
    fn default() -> (p: Preferences)
        ensures
            !p.flatpak_user,
            p.aur_helper is None,
    {
        Preferences { flatpak_user: false, aur_helper: None }
    }
}

/// The texts of a list of strings.
pub open spec fn strings_view(v: Seq<String>) -> Seq<Seq<char>> {
    v.map_values(|s: String| s@)
}

/// A list of strings as lists of characters.
pub fn strings_chars(v: &Vec<String>) -> (r: Vec<Vec<char>>)
    ensures
        text::views(r@) == strings_view(v@),
{
    let mut r: Vec<Vec<char>> = Vec::new();
    let mut i: usize = 0;
    while i < v.len()
        invariant
            i <= v@.len(),
            text::views(r@) == strings_view(v@.take(i as int)),
        decreases v@.len() - i,
    {
        r.push(text::chars(v[i].as_str()));
        assert(strings_view(v@.take(i + 1)) =~= strings_view(v@.take(i as int)).push(v@[i as int]@));
        assert(text::views(r@) =~= text::views(r@.take(i as int)).push(r@[i as int]@));
        i = i + 1;
    }
    assert(v@.take(v@.len() as int) =~= v@);
    r
}

} // verus!
