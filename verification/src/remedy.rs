//! The one true thing to say about getting a newer BAP Store, given how this
//! copy was installed.
//!
//! Every remedy is one of four shapes, chosen from the installation and
//! never from a guess: a row on the Updates page, an exact release asset
//! handed to the package manager, an asset put in place of this copy's own
//! file, or a sentence. Where the release carries no asset for this
//! machine's architecture, the remedy is a sentence that names no file.

use vstd::prelude::*;
use crate::text;
use crate::model::SourceKind;
use crate::release::{Asset, fetchable};
use crate::version::{self, Version, VersionView};

verus! {

/// The name the `.deb` and the `.rpm` are published under.
pub const ARCHIVE_PACKAGE: &'static str = "bap-store";

/// The AUR package that builds BAP Store from source; its updates come
/// through the AUR like any other package's.
pub const PACMAN_SOURCE_PACKAGE: &'static str = "bap-store";

pub open spec fn archive_package() -> Seq<char> {
    "bap-store"@
}

pub open spec fn pacman_source_package() -> Seq<char> {
    "bap-store"@
}

/// The architectures the release workflow builds.
#[derive(Clone, Copy, Debug, PartialEq, Eq, Structural)]
pub enum Arch {
    X86_64,
    Aarch64,
}

pub open spec fn arch_of(text: Seq<char>) -> Option<Arch> {
    if text == "x86_64"@ || text == "amd64"@ || text == "x64"@ {
        Some(Arch::X86_64)
    } else if text == "aarch64"@ || text == "arm64"@ {
        Some(Arch::Aarch64)
    } else {
        None
    }
}

pub open spec fn deb_word(a: Arch) -> Seq<char> {
    match a {
        Arch::X86_64 => "amd64"@,
        Arch::Aarch64 => "arm64"@,
    }
}

pub open spec fn rpm_word(a: Arch) -> Seq<char> {
    match a {
        Arch::X86_64 => "x86_64"@,
        Arch::Aarch64 => "aarch64"@,
    }
}

impl Arch {
    /// From the machine's or a package manager's spelling; `None` for an
    /// architecture no release is built for.
    pub fn parse(text: &str) -> (r: Option<Arch>)
        ensures
            r == arch_of(text@),
    {
        let t = text::chars(text);
        if text::eq_str(t.as_slice(), "x86_64") || text::eq_str(t.as_slice(), "amd64")
            || text::eq_str(t.as_slice(), "x64") {
            Some(Arch::X86_64)
        } else if text::eq_str(t.as_slice(), "aarch64") || text::eq_str(t.as_slice(), "arm64") {
            Some(Arch::Aarch64)
        } else {
            None
        }
    }

    /// Debian's spelling.
    pub fn deb(self) -> (r: &'static str)
        ensures
            r@ == deb_word(self),
    {
        match self {
            Arch::X86_64 => "amd64",
            Arch::Aarch64 => "arm64",
        }
    }

    /// rpm's spelling, which the other formats use too.
    pub fn rpm(self) -> (r: &'static str)
        ensures
            r@ == rpm_word(self),
    {
        match self {
            Arch::X86_64 => "x86_64",
            Arch::Aarch64 => "aarch64",
        }
    }
}

/// The shapes a release publishes.
#[derive(Clone, Copy, Debug, PartialEq, Eq, Structural)]
pub enum Format {
    /// `bap-store_<v>_amd64.deb`
    Deb,
    /// `bap-store-<v>-1.x86_64.rpm`
    Rpm,
    /// `bap-store-bin-<v>-1-x86_64.pkg.tar.zst`
    PacmanPackage,
    /// `BAP-Store-<v>-x86_64.AppImage`
    AppImage,
    /// `bap-store-<v>-x86_64.flatpak`
    Flatpak,
}

/// The file name the release workflow gives a format at a version.
pub open spec fn format_name(f: Format, v: VersionView, a: Arch) -> Seq<char> {
    let shown = version::display(v);
    match f {
        Format::Deb => "bap-store_"@ + shown + "_"@ + deb_word(a) + ".deb"@,
        Format::Rpm => "bap-store-"@ + shown + "-1."@ + rpm_word(a) + ".rpm"@,
        Format::PacmanPackage => "bap-store-bin-"@ + shown + "-1-"@ + rpm_word(a) + ".pkg.tar.zst"@,
        Format::AppImage => "BAP-Store-"@ + shown + "-"@ + rpm_word(a) + ".AppImage"@,
        Format::Flatpak => "bap-store-"@ + shown + "-"@ + rpm_word(a) + ".flatpak"@,
    }
}

pub open spec fn format_prefix(f: Format) -> Seq<char> {
    match f {
        Format::Deb => "bap-store_"@,
        Format::Rpm => "bap-store-"@,
        Format::PacmanPackage => "bap-store-bin-"@,
        Format::AppImage => "BAP-Store-"@,
        Format::Flatpak => "bap-store-"@,
    }
}

pub open spec fn format_suffix(f: Format, a: Arch) -> Seq<char> {
    match f {
        Format::Deb => "_"@ + deb_word(a) + ".deb"@,
        Format::Rpm => "."@ + rpm_word(a) + ".rpm"@,
        Format::PacmanPackage => "-"@ + rpm_word(a) + ".pkg.tar.zst"@,
        Format::AppImage => "-"@ + rpm_word(a) + ".AppImage"@,
        Format::Flatpak => "-"@ + rpm_word(a) + ".flatpak"@,
    }
}

/// Whether an asset name is this format for this architecture: matched on
/// the prefix and the suffix the name is built from, not on the version in
/// the middle.
pub open spec fn format_matches(f: Format, a: Arch, name: Seq<char>) -> bool {
    format_prefix(f).is_prefix_of(name) && format_suffix(f, a).is_suffix_of(name)
}

pub open spec fn other_arch(a: Arch) -> Arch {
    match a {
        Arch::X86_64 => Arch::Aarch64,
        Arch::Aarch64 => Arch::X86_64,
    }
}

/// The text in front of a format's suffix in its file name.
pub open spec fn name_head(f: Format, v: VersionView) -> Seq<char> {
    let shown = version::display(v);
    match f {
        Format::Deb => "bap-store_"@ + shown,
        Format::Rpm => "bap-store-"@ + shown + "-1"@,
        Format::PacmanPackage => "bap-store-bin-"@ + shown + "-1"@,
        Format::AppImage => "BAP-Store-"@ + shown,
        Format::Flatpak => "bap-store-"@ + shown,
    }
}

proof fn lemma_not_suffix(x: Seq<char>, s: Seq<char>, t: Seq<char>, k: int)
    requires
        0 <= k < t.len(),
        t.len() - k <= s.len(),
        s[s.len() - (t.len() - k)] != t[k],
    ensures
        !t.is_suffix_of(x + s),
{
    let n = x + s;
    if t.is_suffix_of(n) {
        assert(n.subrange(n.len() - t.len(), n.len() as int)[k] == t[k]);
        assert(n[n.len() - t.len() + k] == s[s.len() - (t.len() - k)]);
    }
}

/// The name the release workflow gives a format matches that format's
/// pattern for its own architecture, and not the pattern for the other
/// architecture: `name` and `matches` are two spellings of one agreement.
pub proof fn lemma_names_match_their_patterns(f: Format, v: Version, a: Arch)
    ensures
        format_matches(f, a, format_name(f, v@, a)),
        !format_matches(f, other_arch(a), format_name(f, v@, a)),
{
    reveal_strlit("bap-store_");
    reveal_strlit("bap-store-");
    reveal_strlit("bap-store-bin-");
    reveal_strlit("BAP-Store-");
    reveal_strlit("_");
    reveal_strlit("-");
    reveal_strlit(".");
    reveal_strlit("-1");
    reveal_strlit("-1.");
    reveal_strlit("-1-");
    reveal_strlit("amd64");
    reveal_strlit("arm64");
    reveal_strlit("x86_64");
    reveal_strlit("aarch64");
    reveal_strlit(".deb");
    reveal_strlit(".rpm");
    reveal_strlit(".pkg.tar.zst");
    reveal_strlit(".AppImage");
    reveal_strlit(".flatpak");
    let name = format_name(f, v@, a);
    let head = name_head(f, v@);
    let suffix = format_suffix(f, a);
    let other = format_suffix(f, other_arch(a));
    assert(name =~= head + suffix);
    assert(format_prefix(f).is_prefix_of(name)) by {
        assert(name.subrange(0, format_prefix(f).len() as int) =~= format_prefix(f));
    }
    assert(suffix.is_suffix_of(name)) by {
        assert(name.subrange(name.len() - suffix.len(), name.len() as int) =~= suffix);
    }
    match (f, a) {
        (Format::Deb, _) => lemma_not_suffix(head, suffix, other, 2),
        (_, Arch::X86_64) => lemma_not_suffix(head, suffix, other, 1),
        (_, Arch::Aarch64) => lemma_not_suffix(head, suffix, other, 0),
    }
}

pub open spec fn format_label(f: Format) -> Seq<char> {
    match f {
        Format::Deb => "Debian package"@,
        Format::Rpm => "rpm package"@,
        Format::PacmanPackage => "pacman package"@,
        Format::AppImage => "AppImage"@,
        Format::Flatpak => "Flatpak bundle"@,
    }
}

impl Format {
    /// The file name the workflow gives this format at this version.
    pub fn name(self, version: &Version, arch: Arch) -> (r: String)
        ensures
            r@ == format_name(self, version@, arch),
    {
        let shown = version.to_string();
        let mut s = String::new();
        match self {
            Format::Deb => {
                text::push_str(&mut s, "bap-store_");
                text::push_str(&mut s, shown.as_str());
                text::push_str(&mut s, "_");
                text::push_str(&mut s, arch.deb());
                text::push_str(&mut s, ".deb");
            },
            Format::Rpm => {
                text::push_str(&mut s, "bap-store-");
                text::push_str(&mut s, shown.as_str());
                text::push_str(&mut s, "-1.");
                text::push_str(&mut s, arch.rpm());
                text::push_str(&mut s, ".rpm");
            },
            Format::PacmanPackage => {
                text::push_str(&mut s, "bap-store-bin-");
                text::push_str(&mut s, shown.as_str());
                text::push_str(&mut s, "-1-");
                text::push_str(&mut s, arch.rpm());
                text::push_str(&mut s, ".pkg.tar.zst");
            },
            Format::AppImage => {
                text::push_str(&mut s, "BAP-Store-");
                text::push_str(&mut s, shown.as_str());
                text::push_str(&mut s, "-");
                text::push_str(&mut s, arch.rpm());
                text::push_str(&mut s, ".AppImage");
            },
            Format::Flatpak => {
                text::push_str(&mut s, "bap-store-");
                text::push_str(&mut s, shown.as_str());
                text::push_str(&mut s, "-");
                text::push_str(&mut s, arch.rpm());
                text::push_str(&mut s, ".flatpak");
            },
        }
        assert(s@ =~= format_name(self, version@, arch));
        s
    }

    fn prefix(self) -> (r: &'static str)
        ensures
            r@ == format_prefix(self),
    {
        match self {
            Format::Deb => "bap-store_",
            Format::Rpm => "bap-store-",
            Format::PacmanPackage => "bap-store-bin-",
            Format::AppImage => "BAP-Store-",
            Format::Flatpak => "bap-store-",
        }
    }

    fn suffix(self, arch: Arch) -> (r: String)
        ensures
            r@ == format_suffix(self, arch),
    {
        let mut s = String::new();
        match self {
            Format::Deb => {
                text::push_str(&mut s, "_");
                text::push_str(&mut s, arch.deb());
                text::push_str(&mut s, ".deb");
            },
            Format::Rpm => {
                text::push_str(&mut s, ".");
                text::push_str(&mut s, arch.rpm());
                text::push_str(&mut s, ".rpm");
            },
            Format::PacmanPackage => {
                text::push_str(&mut s, "-");
                text::push_str(&mut s, arch.rpm());
                text::push_str(&mut s, ".pkg.tar.zst");
            },
            Format::AppImage => {
                text::push_str(&mut s, "-");
                text::push_str(&mut s, arch.rpm());
                text::push_str(&mut s, ".AppImage");
            },
            Format::Flatpak => {
                text::push_str(&mut s, "-");
                text::push_str(&mut s, arch.rpm());
                text::push_str(&mut s, ".flatpak");
            },
        }
        assert(s@ =~= format_suffix(self, arch));
        s
    }

    /// Whether an asset name is this format for this architecture.
    pub fn matches(self, arch: Arch, name: &str) -> (r: bool)
        ensures
            r == format_matches(self, arch, name@),
    {
        let n = text::chars(name);
        let suffix = self.suffix(arch);
        let sv = text::chars(suffix.as_str());
        text::starts_with_str(n.as_slice(), self.prefix()) && text::ends_with(
            n.as_slice(),
            sv.as_slice(),
        )
    }

    /// What a sentence calls it.
    pub fn label(self) -> (r: &'static str)
        ensures
            r@ == format_label(self),
    {
        match self {
            Format::Deb => "Debian package",
            Format::Rpm => "rpm package",
            Format::PacmanPackage => "pacman package",
            Format::AppImage => "AppImage",
            Format::Flatpak => "Flatpak bundle",
        }
    }
}

pub open spec fn asset_fits(a: Asset, f: Format, arch: Arch) -> bool {
    fetchable(a) && format_matches(f, arch, a.name@)
}

/// The first asset on `https` of this format for this architecture.
pub open spec fn find_index(assets: Seq<Asset>, f: Format, arch: Option<Arch>) -> Option<int> {
    match arch {
        None => None,
        Some(a) => if exists|i: int| 0 <= i < assets.len() && asset_fits(assets[i], f, a) {
            Some(
                choose|i: int|
                    0 <= i < assets.len() && asset_fits(assets[i], f, a) && forall|j: int|
                        0 <= j < i ==> !asset_fits(#[trigger] assets[j], f, a),
            )
        } else {
            None
        },
    }
}

proof fn lemma_first_fit(assets: Seq<Asset>, f: Format, a: Arch, i: int)
    requires
        0 <= i < assets.len(),
        asset_fits(assets[i], f, a),
        forall|j: int| 0 <= j < i ==> !asset_fits(#[trigger] assets[j], f, a),
    ensures
        find_index(assets, f, Some(a)) == Some(i),
{
    let k = choose|k: int|
        0 <= k < assets.len() && asset_fits(assets[k], f, a) && forall|j: int|
            0 <= j < k ==> !asset_fits(#[trigger] assets[j], f, a);
    assert(0 <= k < assets.len() && asset_fits(assets[k], f, a) && forall|j: int|
        0 <= j < k ==> !asset_fits(#[trigger] assets[j], f, a));
    if k < i {
        assert(!asset_fits(assets[k], f, a));
    }
    if i < k {
        assert(!asset_fits(assets[i], f, a));
    }
}

/// The asset of this format for this architecture, if the release carries
/// one on `https`; `None` for an architecture no release is built for.
pub fn find(assets: &[Asset], format: Format, arch: Option<Arch>) -> (r: Option<&Asset>)
    ensures
        match find_index(assets@, format, arch) {
            Some(i) => r matches Some(a) && *a == assets@[i],
            None => r is None,
        },
{
    let a = match arch {
        Some(a) => a,
        None => return None,
    };
    let mut i: usize = 0;
    while i < assets.len()
        invariant
            arch == Some(a),
            i <= assets@.len(),
            forall|j: int| 0 <= j < i ==> !asset_fits(#[trigger] assets@[j], format, a),
        decreases assets@.len() - i,
    {
        let asset = &assets[i];
        if asset.is_fetchable() && format.matches(a, asset.name.as_str()) {
            proof {
                lemma_first_fit(assets@, format, a, i as int);
            }
            return Some(asset);
        }
        i = i + 1;
    }
    assert(!exists|k: int| 0 <= k < assets@.len() && asset_fits(assets@[k], format, a));
    None
}

/// How a downloaded asset is installed.
#[derive(Clone, Copy, Debug, PartialEq, Eq, Structural)]
pub enum Installer {
    /// `pacman -U <file>`
    PacmanU,
    /// `apt-get install -y <file>`
    DpkgI,
    /// `dnf install -y <file>`
    RpmU,
    /// `flatpak install --user -y <file>`; no remedy produces it today.
    FlatpakBundle,
}

/// How this copy of BAP Store was installed.
#[derive(Clone, Debug, PartialEq, Eq)]
pub enum Installation {
    /// A pacman package of this name.
    Pacman { package: String },
    /// A Debian package; `archive` when the Spillebulle archive is enrolled.
    Dpkg { archive: bool },
    /// An rpm package; `archive` when the Spillebulle archive is enrolled.
    Rpm { archive: bool },
    /// A Flatpak bundle with no remote behind it.
    Flatpak,
    /// An AppImage at this path.
    AppImage { path: String },
    /// A copy unpacked somewhere by hand.
    Portable,
    /// Nothing recognisable.
    Unknown,
}

/// What to do, and the one sentence that says so.
#[derive(Clone, Debug, PartialEq, Eq)]
pub enum Remedy {
    /// The manager already has it: it is a row on the Updates page.
    UpdatesPage { source: SourceKind, package: String, sentence: String },
    /// Download the exact asset and hand it to the manager.
    InstallAsset { asset: String, url: String, installer: Installer, sentence: String },
    /// Download the exact asset and put it in place of the file at `path`.
    ReplaceFile { path: String, asset: String, url: String, sentence: String },
    /// Nothing BAP Store can run.
    Sentence { sentence: String },
}

/// A remedy as mathematics.
pub enum RemedyView {
    UpdatesPage { source: SourceKind, package: Seq<char>, sentence: Seq<char> },
    InstallAsset { asset: Seq<char>, url: Seq<char>, installer: Installer, sentence: Seq<char> },
    ReplaceFile { path: Seq<char>, asset: Seq<char>, url: Seq<char>, sentence: Seq<char> },
    Sentence { sentence: Seq<char> },
}

impl View for Remedy {
    type V = RemedyView;

    open spec fn view(&self) -> RemedyView {
        match self {
            Remedy::UpdatesPage { source, package, sentence } => RemedyView::UpdatesPage {
                source: *source,
                package: package@,
                sentence: sentence@,
            },
            Remedy::InstallAsset { asset, url, installer, sentence } => RemedyView::InstallAsset {
                asset: asset@,
                url: url@,
                installer: *installer,
                sentence: sentence@,
            },
            Remedy::ReplaceFile { path, asset, url, sentence } => RemedyView::ReplaceFile {
                path: path@,
                asset: asset@,
                url: url@,
                sentence: sentence@,
            },
            Remedy::Sentence { sentence } => RemedyView::Sentence { sentence: sentence@ },
        }
    }
}

pub open spec fn remedy_sentence(r: RemedyView) -> Seq<char> {
    match r {
        RemedyView::UpdatesPage { sentence, .. } => sentence,
        RemedyView::InstallAsset { sentence, .. } => sentence,
        RemedyView::ReplaceFile { sentence, .. } => sentence,
        RemedyView::Sentence { sentence } => sentence,
    }
}

impl Remedy {
    pub fn sentence(&self) -> (r: &str)
        ensures
            r@ == remedy_sentence(self@),
    {
        match self {
            Remedy::UpdatesPage { sentence, .. } => sentence.as_str(),
            Remedy::InstallAsset { sentence, .. } => sentence.as_str(),
            Remedy::ReplaceFile { sentence, .. } => sentence.as_str(),
            Remedy::Sentence { sentence } => sentence.as_str(),
        }
    }

    /// The release asset this remedy would fetch, if any.
    pub fn asset(&self) -> (r: Option<&str>)
        ensures
            match self@ {
                RemedyView::InstallAsset { asset, .. } => r matches Some(a) && a@ == asset,
                RemedyView::ReplaceFile { asset, .. } => r matches Some(a) && a@ == asset,
                _ => r is None,
            },
    {
        match self {
            Remedy::InstallAsset { asset, .. } => Some(asset.as_str()),
            Remedy::ReplaceFile { asset, .. } => Some(asset.as_str()),
            Remedy::UpdatesPage { .. } => None,
            Remedy::Sentence { .. } => None,
        }
    }

    /// Whether BAP Store can carry this out itself, as a plan.
    pub fn is_actionable(&self) -> (r: bool)
        ensures
            r == (self@ is InstallAsset || self@ is ReplaceFile),
    {
        match self {
            Remedy::InstallAsset { .. } => true,
            Remedy::ReplaceFile { .. } => true,
            _ => false,
        }
    }
}

/// How a sentence names the architecture: the word the machine gave, or
/// "this machine" when it gave none.
pub open spec fn arch_word(arch: Seq<char>) -> Seq<char> {
    if text::trim(arch).len() == 0 {
        "this machine"@
    } else {
        text::trim(arch)
    }
}

/// The sentence for a format the release does not carry for this
/// architecture. It names no file.
pub open spec fn none_for_text(f: Format, latest: VersionView, arch: Seq<char>) -> Seq<char> {
    "BAP Store "@ + version::display(latest) + " has no "@ + format_label(f) + " for "@ + arch_word(
        arch,
    ) + " on the releases page, so this copy stays as it is until one is published."@
}

/// The remedy for an installation, given the newest version, the machine's
/// architecture word and the assets the release carries.
pub open spec fn remedy_spec(
    inst: Installation,
    latest: VersionView,
    arch: Seq<char>,
    assets: Seq<Asset>,
) -> RemedyView {
    let known = arch_of(arch);
    let shown = version::display(latest);
    match inst {
        Installation::Pacman { package } => {
            if package@ == pacman_source_package() {
                RemedyView::UpdatesPage {
                    source: SourceKind::Aur,
                    package: package@,
                    sentence: "BAP Store "@ + shown + " is in the AUR; it is in your Updates."@,
                }
            } else {
                match find_index(assets, Format::PacmanPackage, known) {
                    Some(i) => RemedyView::InstallAsset {
                        asset: assets[i].name@,
                        url: assets[i].browser_download_url@,
                        installer: Installer::PacmanU,
                        sentence: "BAP Store "@ + shown
                            + " is not in a repository this machine uses. BAP Store will download "@
                            + assets[i].name@ + " and install it with pacman."@,
                    },
                    None => RemedyView::Sentence {
                        sentence: none_for_text(Format::PacmanPackage, latest, arch),
                    },
                }
            }
        },
        Installation::Dpkg { archive } => {
            if archive {
                RemedyView::UpdatesPage {
                    source: SourceKind::Apt,
                    package: archive_package(),
                    sentence: "BAP Store "@ + shown
                        + " is in the Spillebulle archive; it is in your Updates."@,
                }
            } else {
                match find_index(assets, Format::Deb, known) {
                    Some(i) => RemedyView::InstallAsset {
                        asset: assets[i].name@,
                        url: assets[i].browser_download_url@,
                        installer: Installer::DpkgI,
                        sentence: "This machine does not have the Spillebulle archive, so apt has nothing newer to offer. BAP Store will download "@
                            + assets[i].name@
                            + " and install it with apt. That package adds the archive, and apt keeps BAP Store up to date from then on."@,
                    },
                    None => RemedyView::Sentence {
                        sentence: none_for_text(Format::Deb, latest, arch),
                    },
                }
            }
        },
        Installation::Rpm { archive } => {
            if archive {
                RemedyView::UpdatesPage {
                    source: SourceKind::Dnf,
                    package: archive_package(),
                    sentence: "BAP Store "@ + shown
                        + " is in the Spillebulle archive; it is in your Updates."@,
                }
            } else {
                match find_index(assets, Format::Rpm, known) {
                    Some(i) => RemedyView::InstallAsset {
                        asset: assets[i].name@,
                        url: assets[i].browser_download_url@,
                        installer: Installer::RpmU,
                        sentence: "This machine does not have the Spillebulle archive, so dnf has nothing newer to offer. BAP Store will download "@
                            + assets[i].name@
                            + " and install it with dnf. That package adds the archive, and your usual system update keeps BAP Store up to date from then on."@,
                    },
                    None => RemedyView::Sentence { sentence: none_for_text(Format::Rpm, latest, arch) },
                }
            }
        },
        Installation::Flatpak => RemedyView::Sentence {
            sentence: match find_index(assets, Format::Flatpak, known) {
                Some(i) => "This copy runs as a Flatpak bundle with no remote behind it. Take "@
                    + assets[i].name@ + " from the releases page and install it over this one."@,
                None => "This copy runs as a Flatpak bundle with no remote behind it, and BAP Store "@
                    + shown + " has no Flatpak bundle for "@ + arch_word(arch)
                    + " on the releases page, so this copy stays as it is until one is published."@,
            },
        },
        Installation::AppImage { path } => match find_index(assets, Format::AppImage, known) {
            Some(i) => RemedyView::ReplaceFile {
                path: path@,
                asset: assets[i].name@,
                url: assets[i].browser_download_url@,
                sentence: "BAP Store will download "@ + assets[i].name@ + " and put it in place of "@
                    + path@ + "."@,
            },
            None => RemedyView::Sentence {
                sentence: none_for_text(Format::AppImage, latest, arch),
            },
        },
        Installation::Portable => RemedyView::Sentence {
            sentence: match find_index(assets, Format::AppImage, known) {
                Some(i) => "BAP Store publishes no archive for a copy like this one. Take "@
                    + assets[i].name@ + " from the releases page and run it in place of this copy."@,
                None => "BAP Store publishes no archive for a copy like this one, and "@ + shown
                    + " has no AppImage for "@ + arch_word(arch)
                    + " on the releases page, so this copy stays as it is until one is published."@,
            },
        },
        Installation::Unknown => RemedyView::Sentence {
            sentence: "This copy was installed in a way BAP Store cannot update by itself. Update it the way it was installed."@,
        },
    }
}

proof fn lemma_find_index_fits(assets: Seq<Asset>, f: Format, arch: Option<Arch>)
    ensures
        match find_index(assets, f, arch) {
            Some(i) => 0 <= i < assets.len() && (arch matches Some(a) && asset_fits(assets[i], f, a)),
            None => true,
        },
{
    if let Some(a) = arch {
        if exists|i: int| 0 <= i < assets.len() && asset_fits(assets[i], f, a) {
            let w = choose|i: int| 0 <= i < assets.len() && asset_fits(assets[i], f, a);
            lemma_least_fit(assets, f, a, w);
        }
    }
}

proof fn lemma_least_fit(assets: Seq<Asset>, f: Format, a: Arch, w: int)
    requires
        0 <= w < assets.len(),
        asset_fits(assets[w], f, a),
    ensures
        exists|i: int|
            0 <= i < assets.len() && asset_fits(assets[i], f, a) && forall|j: int|
                0 <= j < i ==> !asset_fits(#[trigger] assets[j], f, a),
    decreases w,
{
    if exists|j: int| 0 <= j < w && asset_fits(assets[j], f, a) {
        let j = choose|j: int| 0 <= j < w && asset_fits(assets[j], f, a);
        lemma_least_fit(assets, f, a, j);
    } else {
        assert(forall|j: int| 0 <= j < w ==> !asset_fits(#[trigger] assets[j], f, a));
    }
}

/// Whether a character after a `.` would begin one of the file suffixes
/// the releases use (`.deb`, `.rpm`, `.pkg.tar`, `.AppImage`, `.flatpak`).
pub open spec fn suffix_start(c: char) -> bool {
    c == 'd' || c == 'r' || c == 'p' || c == 'A' || c == 'f'
}

/// Whether no `.` in the text begins a file suffix.
#[verifier::opaque]
pub open spec fn names_no_file(s: Seq<char>) -> bool {
    forall|i: int| 1 <= i < s.len() && s[i - 1] == '.' ==> !suffix_start(#[trigger] s[i])
}

/// Whether the text holds `x` somewhere.
pub open spec fn contains_text(s: Seq<char>, x: Seq<char>) -> bool {
    exists|i: int| 0 <= i && i + x.len() <= s.len() && #[trigger] s.subrange(i, i + x.len()) == x
}

/// The format a release asset must have for this installation, where one
/// could serve it.
pub open spec fn asset_format(inst: Installation) -> Option<Format> {
    match inst {
        Installation::Pacman { .. } => Some(Format::PacmanPackage),
        Installation::Dpkg { .. } => Some(Format::Deb),
        Installation::Rpm { .. } => Some(Format::Rpm),
        Installation::Flatpak => Some(Format::Flatpak),
        Installation::AppImage { .. } => Some(Format::AppImage),
        Installation::Portable => Some(Format::AppImage),
        Installation::Unknown => None,
    }
}

proof fn lemma_join_names_no_file(a: Seq<char>, b: Seq<char>)
    requires
        names_no_file(a),
        names_no_file(b),
        a.len() > 0 ==> a.last() != '.',
    ensures
        names_no_file(a + b),
        b.len() > 0 ==> b.last() != '.' ==> ((a + b).len() > 0 && (a + b).last() != '.'),
        b.len() == 0 ==> a + b == a,
{
    reveal(names_no_file);
    if b.len() == 0 {
        assert(a + b =~= a);
    } else {
        assert((a + b).last() == b.last());
    }
    let s = a + b;
    assert forall|i: int| 1 <= i < s.len() && s[i - 1] == '.' implies !suffix_start(#[trigger] s[i]) by {
        if i < a.len() {
            assert(s[i] == a[i] && s[i - 1] == a[i - 1]);
        } else if i == a.len() {
            assert(s[i - 1] == a.last());
        } else {
            let j = i - a.len();
            assert(s[i] == b[j] && s[i - 1] == b[j - 1]);
        }
    }
}

proof fn lemma_no_dot_names_no_file(s: Seq<char>)
    requires
        forall|i: int| 0 <= i < s.len() ==> #[trigger] s[i] != '.',
    ensures
        names_no_file(s),
{
    reveal(names_no_file);
    assert forall|i: int| 1 <= i < s.len() && s[i - 1] == '.' implies !suffix_start(#[trigger] s[i]) by {
        assert(s[i - 1] != '.');
    }
}

proof fn lemma_trim_start_no_dot(s: Seq<char>)
    requires
        forall|i: int| 0 <= i < s.len() ==> #[trigger] s[i] != '.',
    ensures
        forall|i: int| 0 <= i < text::trim_start(s).len() ==> #[trigger] text::trim_start(s)[i] != '.',
    decreases s.len(),
{
    if s.len() > 0 && text::is_space(s[0]) {
        assert forall|i: int| 0 <= i < s.drop_first().len() implies #[trigger] s.drop_first()[i] != '.' by {
            assert(s.drop_first()[i] == s[i + 1]);
        }
        lemma_trim_start_no_dot(s.drop_first());
        assert(text::trim_start(s) == text::trim_start(s.drop_first()));
    } else {
        assert(text::trim_start(s) == s);
    }
}

proof fn lemma_trim_end_no_dot(s: Seq<char>)
    requires
        forall|i: int| 0 <= i < s.len() ==> #[trigger] s[i] != '.',
    ensures
        forall|i: int| 0 <= i < text::trim_end(s).len() ==> #[trigger] text::trim_end(s)[i] != '.',
    decreases s.len(),
{
    if s.len() > 0 && text::is_space(s.last()) {
        assert forall|i: int| 0 <= i < s.drop_last().len() implies #[trigger] s.drop_last()[i] != '.' by {
            assert(s.drop_last()[i] == s[i]);
        }
        lemma_trim_end_no_dot(s.drop_last());
        assert(text::trim_end(s) == text::trim_end(s.drop_last()));
    } else {
        assert(text::trim_end(s) == s);
    }
}

proof fn lemma_arch_word_no_dot(arch: Seq<char>)
    requires
        forall|i: int| 0 <= i < arch.len() ==> #[trigger] arch[i] != '.',
    ensures
        forall|i: int| 0 <= i < arch_word(arch).len() ==> #[trigger] arch_word(arch)[i] != '.',
{
    lemma_trim_start_no_dot(arch);
    lemma_trim_end_no_dot(text::trim_start(arch));
    if text::trim(arch).len() == 0 {
        reveal_strlit("this machine");
    }
}

proof fn lemma_display_names_no_file(v: VersionView)
    requires
        v.pre is None,
    ensures
        names_no_file(version::display(v)),
        version::display(v).len() > 0 && version::display(v).last() != '.',
{
    reveal(names_no_file);
    text::lemma_decimal_reads_back(v.major);
    text::lemma_decimal_reads_back(v.minor);
    text::lemma_decimal_reads_back(v.patch);
    let (a, b, c) = (text::decimal(v.major), text::decimal(v.minor), text::decimal(v.patch));
    assert forall|i: int| 0 <= i < a.len() implies #[trigger] a[i] != '.' by {
        assert(text::is_digit(a[i]));
    }
    assert forall|i: int| 0 <= i < b.len() implies #[trigger] b[i] != '.' by {
        assert(text::is_digit(b[i]));
    }
    assert forall|i: int| 0 <= i < c.len() implies #[trigger] c[i] != '.' by {
        assert(text::is_digit(c[i]));
    }
    lemma_no_dot_names_no_file(a);
    lemma_no_dot_names_no_file(b);
    lemma_no_dot_names_no_file(c);
    let d = seq!['.'];
    assert(names_no_file(d));
    lemma_join_names_no_file(a, d);
    assert forall|i: int| 1 <= i < (a + d + b).len() && (a + d + b)[i - 1] == '.' implies !suffix_start(
        #[trigger] (a + d + b)[i],
    ) by {
        let s = a + d + b;
        if i < a.len() + 1 {
            assert(s[i - 1] == a[i - 1]);
        } else if i == a.len() + 1 {
            assert(s[i] == b[0]);
            assert(text::is_digit(b[0]));
        } else {
            assert(s[i] == b[i - a.len() - 1] && s[i - 1] == b[i - a.len() - 2]);
        }
    }
    let ab = a + d + b;
    assert forall|i: int| 1 <= i < (ab + d + c).len() && (ab + d + c)[i - 1] == '.' implies !suffix_start(
        #[trigger] (ab + d + c)[i],
    ) by {
        let s = ab + d + c;
        if i < ab.len() + 1 {
            assert(s[i - 1] == ab[i - 1]);
            if i < ab.len() {
                assert(s[i] == ab[i]);
            }
        } else if i == ab.len() + 1 {
            assert(s[i] == c[0]);
            assert(text::is_digit(c[0]));
        } else {
            assert(s[i] == c[i - ab.len() - 1] && s[i - 1] == c[i - ab.len() - 2]);
        }
    }
    assert(version::display(v) == ab + d + c);
    assert(text::is_digit(c.last()));
}

proof fn lemma_sentence_pieces()
    ensures
        names_no_file("BAP Store "@),
        names_no_file(" is in the AUR; it is in your Updates."@),
        names_no_file(" is in the Spillebulle archive; it is in your Updates."@),
        names_no_file(" has no "@),
        names_no_file(" for "@),
        names_no_file(" on the releases page, so this copy stays as it is until one is published."@),
        names_no_file("This copy runs as a Flatpak bundle with no remote behind it, and BAP Store "@),
        names_no_file(" has no Flatpak bundle for "@),
        names_no_file("BAP Store publishes no archive for a copy like this one, and "@),
        names_no_file(" has no AppImage for "@),
        names_no_file(
            "This copy was installed in a way BAP Store cannot update by itself. Update it the way it was installed."@,
        ),
        forall|f: Format| #[trigger] names_no_file(format_label(f)) && format_label(f).len() > 0 && format_label(f).last() != '.',
        " has no "@.last() != '.' && " for "@.last() != '.' && "BAP Store "@.last() != '.',
        " has no Flatpak bundle for "@.last() != '.' && " has no AppImage for "@.last() != '.',
        "This copy runs as a Flatpak bundle with no remote behind it, and BAP Store "@.last() != '.',
        "BAP Store publishes no archive for a copy like this one, and "@.last() != '.',
        " has no "@.len() > 0 && " for "@.len() > 0 && "BAP Store "@.len() > 0,
{
    reveal(names_no_file);
    reveal_strlit("BAP Store ");
    reveal_strlit(" is in the AUR; it is in your Updates.");
    reveal_strlit(" is in the Spillebulle archive; it is in your Updates.");
    reveal_strlit(" has no ");
    reveal_strlit(" for ");
    reveal_strlit(" on the releases page, so this copy stays as it is until one is published.");
    reveal_strlit("This copy runs as a Flatpak bundle with no remote behind it, and BAP Store ");
    reveal_strlit(" has no Flatpak bundle for ");
    reveal_strlit("BAP Store publishes no archive for a copy like this one, and ");
    reveal_strlit(" has no AppImage for ");
    reveal_strlit("This copy was installed in a way BAP Store cannot update by itself. Update it the way it was installed.");
    reveal_strlit("Debian package");
    reveal_strlit("rpm package");
    reveal_strlit("pacman package");
    reveal_strlit("AppImage");
    reveal_strlit("Flatpak bundle");
}

proof fn lemma_none_for_text_names_no_file(f: Format, latest: VersionView, arch: Seq<char>)
    requires
        latest.pre is None,
        forall|i: int| 0 <= i < arch.len() ==> #[trigger] arch[i] != '.',
    ensures
        names_no_file(none_for_text(f, latest, arch)),
{
    lemma_sentence_pieces();
    lemma_display_names_no_file(latest);
    lemma_arch_word_no_dot(arch);
    let w = arch_word(arch);
    lemma_no_dot_names_no_file(w);
    if w.len() > 0 {
        assert(w[w.len() - 1] != '.');
    }
    let shown = version::display(latest);
    let a1 = "BAP Store "@ + shown;
    lemma_join_names_no_file("BAP Store "@, shown);
    let a2 = a1 + " has no "@;
    lemma_join_names_no_file(a1, " has no "@);
    let a3 = a2 + format_label(f);
    assert(names_no_file(format_label(f)));
    lemma_join_names_no_file(a2, format_label(f));
    let a4 = a3 + " for "@;
    lemma_join_names_no_file(a3, " for "@);
    let a5 = a4 + w;
    lemma_join_names_no_file(a4, w);
    lemma_join_names_no_file(a5, " on the releases page, so this copy stays as it is until one is published."@);
}

proof fn lemma_names_no_file_has_no_suffix(s: Seq<char>, x: Seq<char>)
    requires
        names_no_file(s),
        x.len() >= 2,
        x[0] == '.',
        suffix_start(x[1]),
    ensures
        !contains_text(s, x),
{
    reveal(names_no_file);
    if contains_text(s, x) {
        let i = choose|i: int| 0 <= i && i + x.len() <= s.len() && #[trigger] s.subrange(i, i + x.len()) == x;
        assert(s.subrange(i, i + x.len())[0] == s[i]);
        assert(s.subrange(i, i + x.len())[1] == s[i + 1]);
        assert(!suffix_start(s[i + 1]));
    }
}

/// With no release asset in the installation's format for this machine (a
/// release version with no pre-release part, an architecture word with no
/// dot), the remedy fetches nothing and its sentence names no file: it
/// holds no `.deb`, `.rpm`, `.pkg.tar`, `.AppImage` or `.flatpak`.
pub proof fn lemma_no_asset_names_no_file(
    inst: Installation,
    latest: VersionView,
    arch: Seq<char>,
    assets: Seq<Asset>,
)
    requires
        latest.pre is None,
        forall|i: int| 0 <= i < arch.len() ==> #[trigger] arch[i] != '.',
        asset_format(inst) matches Some(f) ==> find_index(assets, f, arch_of(arch)) is None,
    ensures
        !(remedy_spec(inst, latest, arch, assets) is InstallAsset),
        !(remedy_spec(inst, latest, arch, assets) is ReplaceFile),
        names_no_file(remedy_sentence(remedy_spec(inst, latest, arch, assets))),
        !contains_text(remedy_sentence(remedy_spec(inst, latest, arch, assets)), ".deb"@),
        !contains_text(remedy_sentence(remedy_spec(inst, latest, arch, assets)), ".rpm"@),
        !contains_text(remedy_sentence(remedy_spec(inst, latest, arch, assets)), ".pkg.tar"@),
        !contains_text(remedy_sentence(remedy_spec(inst, latest, arch, assets)), ".AppImage"@),
        !contains_text(remedy_sentence(remedy_spec(inst, latest, arch, assets)), ".flatpak"@),
{
    lemma_sentence_pieces();
    lemma_display_names_no_file(latest);
    lemma_arch_word_no_dot(arch);
    let w = arch_word(arch);
    lemma_no_dot_names_no_file(w);
    if w.len() > 0 {
        assert(w[w.len() - 1] != '.');
    }
    let shown = version::display(latest);
    lemma_join_names_no_file("BAP Store "@, shown);
    let a1 = "BAP Store "@ + shown;
    match inst {
        Installation::Pacman { .. } => {
            lemma_none_for_text_names_no_file(Format::PacmanPackage, latest, arch);
            lemma_join_names_no_file(a1, " is in the AUR; it is in your Updates."@);
        },
        Installation::Dpkg { .. } => {
            lemma_none_for_text_names_no_file(Format::Deb, latest, arch);
            lemma_join_names_no_file(a1, " is in the Spillebulle archive; it is in your Updates."@);
        },
        Installation::Rpm { .. } => {
            lemma_none_for_text_names_no_file(Format::Rpm, latest, arch);
            lemma_join_names_no_file(a1, " is in the Spillebulle archive; it is in your Updates."@);
        },
        Installation::AppImage { .. } => {
            lemma_none_for_text_names_no_file(Format::AppImage, latest, arch);
        },
        Installation::Flatpak => {
            let p = "This copy runs as a Flatpak bundle with no remote behind it, and BAP Store "@;
            lemma_join_names_no_file(p, shown);
            lemma_join_names_no_file(p + shown, " has no Flatpak bundle for "@);
            lemma_join_names_no_file(p + shown + " has no Flatpak bundle for "@, w);
            lemma_join_names_no_file(
                p + shown + " has no Flatpak bundle for "@ + w,
                " on the releases page, so this copy stays as it is until one is published."@,
            );
        },
        Installation::Portable => {
            let p = "BAP Store publishes no archive for a copy like this one, and "@;
            lemma_join_names_no_file(p, shown);
            lemma_join_names_no_file(p + shown, " has no AppImage for "@);
            lemma_join_names_no_file(p + shown + " has no AppImage for "@, w);
            lemma_join_names_no_file(
                p + shown + " has no AppImage for "@ + w,
                " on the releases page, so this copy stays as it is until one is published."@,
            );
        },
        Installation::Unknown => {},
    }
    let s = remedy_sentence(remedy_spec(inst, latest, arch, assets));
    reveal_strlit(".deb");
    reveal_strlit(".rpm");
    reveal_strlit(".pkg.tar");
    reveal_strlit(".AppImage");
    reveal_strlit(".flatpak");
    lemma_names_no_file_has_no_suffix(s, ".deb"@);
    lemma_names_no_file_has_no_suffix(s, ".rpm"@);
    lemma_names_no_file_has_no_suffix(s, ".pkg.tar"@);
    lemma_names_no_file_has_no_suffix(s, ".AppImage"@);
    lemma_names_no_file_has_no_suffix(s, ".flatpak"@);
}

/// A remedy that fetches a file fetches one the release carries, on
/// `https`, at the address the release gave for it; and on an architecture
/// no release is built for, no remedy fetches anything.
pub proof fn lemma_remedy_fetches_only_published_assets(
    inst: Installation,
    latest: VersionView,
    arch: Seq<char>,
    assets: Seq<Asset>,
)
    ensures
        match remedy_spec(inst, latest, arch, assets) {
            RemedyView::InstallAsset { asset, url, .. } => exists|i: int|
                0 <= i < assets.len() && assets[i].name@ == asset && assets[i].browser_download_url@
                    == url && fetchable(#[trigger] assets[i]),
            RemedyView::ReplaceFile { asset, url, .. } => exists|i: int|
                0 <= i < assets.len() && assets[i].name@ == asset && assets[i].browser_download_url@
                    == url && fetchable(#[trigger] assets[i]),
            _ => true,
        },
        arch_of(arch) is None ==> !(remedy_spec(inst, latest, arch, assets) is InstallAsset)
            && !(remedy_spec(inst, latest, arch, assets) is ReplaceFile),
{
    let known = arch_of(arch);
    lemma_find_index_fits(assets, Format::PacmanPackage, known);
    lemma_find_index_fits(assets, Format::Deb, known);
    lemma_find_index_fits(assets, Format::Rpm, known);
    lemma_find_index_fits(assets, Format::AppImage, known);
}

fn arch_word_exec(arch: &str) -> (r: Vec<char>)
    ensures
        r@ == arch_word(arch@),
{
    let all = text::chars(arch);
    let t = text::trim_chars(all.as_slice());
    if t.len() == 0 {
        text::chars("this machine")
    } else {
        t
    }
}

fn none_for(format: Format, latest: &Version, arch: &str) -> (r: String)
    ensures
        r@ == none_for_text(format, latest@, arch@),
{
    let mut s = text::string_from("BAP Store ");
    let shown = latest.to_string();
    text::push_str(&mut s, shown.as_str());
    text::push_str(&mut s, " has no ");
    text::push_str(&mut s, format.label());
    text::push_str(&mut s, " for ");
    let w = arch_word_exec(arch);
    text::push_chars(&mut s, w.as_slice());
    text::push_str(
        &mut s,
        " on the releases page, so this copy stays as it is until one is published.",
    );
    s
}

fn sentence_of(parts: &Vec<&str>) -> (r: String)
    ensures
        r@ == concat_all(parts@),
{
    let mut s = String::new();
    let mut i: usize = 0;
    while i < parts.len()
        invariant
            i <= parts@.len(),
            s@ == concat_all(parts@.take(i as int)),
        decreases parts@.len() - i,
    {
        text::push_str(&mut s, parts[i]);
        assert(parts@.take(i + 1).drop_last() =~= parts@.take(i as int));
        i = i + 1;
    }
    assert(parts@.take(parts@.len() as int) =~= parts@);
    s
}

/// The texts of `parts`, one after the other.
pub open spec fn concat_all(parts: Seq<&str>) -> Seq<char>
    decreases parts.len(),
{
    if parts.len() == 0 {
        Seq::empty()
    } else {
        concat_all(parts.drop_last()) + parts.last()@
    }
}

/// The remedy for an installation, given the newest version and the assets
/// its release carries. `arch` is the machine's or a manager's spelling;
/// anything unrecognised gets sentences with no file name.
pub fn remedy(installation: &Installation, latest: &Version, arch: &str, assets: &[Asset]) -> (r:
    Remedy)
    ensures
        r@ == remedy_spec(*installation, latest@, arch@, assets@),
{
    proof {
        reveal_with_fuel(concat_all, 6);
    }
    let known = Arch::parse(arch);
    let shown = latest.to_string();
    let s = shown.as_str();
    match installation {
        Installation::Pacman { package } => {
            let p = text::chars(package.as_str());
            if text::eq_str(p.as_slice(), PACMAN_SOURCE_PACKAGE) {
                return Remedy::UpdatesPage {
                    source: SourceKind::Aur,
                    package: package.clone(),
                    sentence: sentence_of(
                        &vec!["BAP Store ", s, " is in the AUR; it is in your Updates."],
                    ),
                };
            }
            match find(assets, Format::PacmanPackage, known) {
                Some(a) => Remedy::InstallAsset {
                    asset: a.name.clone(),
                    url: a.browser_download_url.clone(),
                    installer: Installer::PacmanU,
                    sentence: sentence_of(
                        &vec![
                            "BAP Store ",
                            s,
                            " is not in a repository this machine uses. BAP Store will download ",
                            a.name.as_str(),
                            " and install it with pacman.",
                        ],
                    ),
                },
                None => Remedy::Sentence { sentence: none_for(Format::PacmanPackage, latest, arch) },
            }
        },
        Installation::Dpkg { archive } => {
            if *archive {
                return Remedy::UpdatesPage {
                    source: SourceKind::Apt,
                    package: text::string_from(ARCHIVE_PACKAGE),
                    sentence: sentence_of(
                        &vec![
                            "BAP Store ",
                            s,
                            " is in the Spillebulle archive; it is in your Updates.",
                        ],
                    ),
                };
            }
            match find(assets, Format::Deb, known) {
                Some(a) => Remedy::InstallAsset {
                    asset: a.name.clone(),
                    url: a.browser_download_url.clone(),
                    installer: Installer::DpkgI,
                    sentence: sentence_of(
                        &vec![
                            "This machine does not have the Spillebulle archive, so apt has nothing newer to offer. BAP Store will download ",
                            a.name.as_str(),
                            " and install it with apt. That package adds the archive, and apt keeps BAP Store up to date from then on.",
                        ],
                    ),
                },
                None => Remedy::Sentence { sentence: none_for(Format::Deb, latest, arch) },
            }
        },
        Installation::Rpm { archive } => {
            if *archive {
                return Remedy::UpdatesPage {
                    source: SourceKind::Dnf,
                    package: text::string_from(ARCHIVE_PACKAGE),
                    sentence: sentence_of(
                        &vec![
                            "BAP Store ",
                            s,
                            " is in the Spillebulle archive; it is in your Updates.",
                        ],
                    ),
                };
            }
            match find(assets, Format::Rpm, known) {
                Some(a) => Remedy::InstallAsset {
                    asset: a.name.clone(),
                    url: a.browser_download_url.clone(),
                    installer: Installer::RpmU,
                    sentence: sentence_of(
                        &vec![
                            "This machine does not have the Spillebulle archive, so dnf has nothing newer to offer. BAP Store will download ",
                            a.name.as_str(),
                            " and install it with dnf. That package adds the archive, and your usual system update keeps BAP Store up to date from then on.",
                        ],
                    ),
                },
                None => Remedy::Sentence { sentence: none_for(Format::Rpm, latest, arch) },
            }
        },
        Installation::Flatpak => {
            let sentence = match find(assets, Format::Flatpak, known) {
                Some(a) => sentence_of(
                    &vec![
                        "This copy runs as a Flatpak bundle with no remote behind it. Take ",
                        a.name.as_str(),
                        " from the releases page and install it over this one.",
                    ],
                ),
                None => {
                    let w = arch_word_exec(arch);
                    let ws = text::string_of(w.as_slice());
                    sentence_of(
                        &vec![
                            "This copy runs as a Flatpak bundle with no remote behind it, and BAP Store ",
                            s,
                            " has no Flatpak bundle for ",
                            ws.as_str(),
                            " on the releases page, so this copy stays as it is until one is published.",
                        ],
                    )
                },
            };
            Remedy::Sentence { sentence }
        },
        Installation::AppImage { path } => match find(assets, Format::AppImage, known) {
            Some(a) => Remedy::ReplaceFile {
                path: path.clone(),
                asset: a.name.clone(),
                url: a.browser_download_url.clone(),
                sentence: sentence_of(
                    &vec![
                        "BAP Store will download ",
                        a.name.as_str(),
                        " and put it in place of ",
                        path.as_str(),
                        ".",
                    ],
                ),
            },
            None => Remedy::Sentence { sentence: none_for(Format::AppImage, latest, arch) },
        },
        Installation::Portable => {
            let sentence = match find(assets, Format::AppImage, known) {
                Some(a) => sentence_of(
                    &vec![
                        "BAP Store publishes no archive for a copy like this one. Take ",
                        a.name.as_str(),
                        " from the releases page and run it in place of this copy.",
                    ],
                ),
                None => {
                    let w = arch_word_exec(arch);
                    let ws = text::string_of(w.as_slice());
                    sentence_of(
                        &vec![
                            "BAP Store publishes no archive for a copy like this one, and ",
                            s,
                            " has no AppImage for ",
                            ws.as_str(),
                            " on the releases page, so this copy stays as it is until one is published.",
                        ],
                    )
                },
            };
            Remedy::Sentence { sentence }
        },
        Installation::Unknown => Remedy::Sentence {
            sentence: text::string_from(
                "This copy was installed in a way BAP Store cannot update by itself. Update it the way it was installed.",
            ),
        },
    }
}

} // verus!
