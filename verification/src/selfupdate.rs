//! The steps that carry out an actionable self-update remedy, and where
//! the asset they download goes.

use vstd::prelude::*;
use crate::text;
use crate::model::{Command, Error, SourceKind, Step};
use crate::plan::{StepView, step_view};
use crate::remedy::{Installation, Installer, Remedy, RemedyView};
use crate::release::Release;
use crate::version::{self, Version};

verus! {

/// The newest release, as the page shows it.
#[derive(Clone, Debug, PartialEq, Eq)]
pub struct LatestRelease {
    pub version: String,
    /// Markdown, from the release body.
    pub notes: String,
    /// Unix seconds.
    pub published: Option<i64>,
    /// The release's page on GitHub.
    pub url: String,
    /// Whether it is newer than this copy.
    pub newer: bool,
}

/// What the self-update check found.
#[derive(Clone, Debug, PartialEq, Eq)]
pub struct SelfUpdate {
    /// This copy's version.
    pub current: String,
    /// `None` when GitHub has no release yet, or could not be asked (then
    /// `error` says why).
    pub latest: Option<LatestRelease>,
    pub installation: Installation,
    /// What to do about a newer release; `None` when there is none.
    pub remedy: Option<Remedy>,
    /// Why GitHub could not be asked, in a sentence, when it could not.
    pub error: Option<String>,
}

/// Whether a release of this version is newer than this copy.
pub open spec fn is_newer(release: version::VersionView, current: version::VersionView) -> bool {
    version::version_order(release, current) == 1
}

/// A release is newer than this copy exactly by version precedence: a
/// higher major, else a higher minor, else a higher patch; with equal
/// numbers a release outranks a pre-release; equal versions are not newer.
/// So `0.1.1` is newer than `0.1.0`, and `0.2.0-rc.1` than `0.1.9`.
pub proof fn lemma_newer_goes_by_precedence(a: version::VersionView, b: version::VersionView)
    ensures
        a.major > b.major ==> is_newer(a, b),
        a.major < b.major ==> !is_newer(a, b),
        a.major == b.major && a.minor > b.minor ==> is_newer(a, b),
        a.major == b.major && a.minor < b.minor ==> !is_newer(a, b),
        a.major == b.major && a.minor == b.minor && a.patch > b.patch ==> is_newer(a, b),
        a.major == b.major && a.minor == b.minor && a.patch < b.patch ==> !is_newer(a, b),
        a.major == b.major && a.minor == b.minor && a.patch == b.patch && a.pre is None ==> (is_newer(a, b)
            <==> b.pre is Some),
        a.major == b.major && a.minor == b.minor && a.patch == b.patch && b.pre is None ==> !is_newer(a, b),
        !is_newer(a, a) || a.pre is Some,
{
}

/// A self-update that installs an asset first downloads it, with `curl`
/// into the download directory under the asset's own name, and then hands
/// that very file to the package manager with the verb that installs a
/// local package file: `pacman -U`, `apt-get install` or `dnf install` of
/// the file, `flatpak install --user` of the bundle; a replacement puts
/// that file in place of the running copy. Nothing else runs.
pub proof fn lemma_self_update_installs_the_downloaded_file(
    remedy: RemedyView,
    dir: Seq<char>,
    r: Result<Seq<StepView>, Seq<char>>,
)
    requires
        plan_spec(remedy, dir, r),
    ensures
        match remedy {
            RemedyView::InstallAsset { asset, url, installer, .. } => {
                let file = text::path_join(dir, asset);
                let s = r->Ok_0;
                &&& r is Ok && s.len() == 2
                &&& s[0].program == "curl"@ && s[0].args.len() == 6 && s[0].args[4] == file && s[0].args[5] == url
                &&& !s[0].needs_root
                &&& s[1].args.last() == file
                &&& installer == Installer::PacmanU ==> s[1].program == "pacman"@ && s[1].args == seq![
                    "-U"@,
                    "--noconfirm"@,
                    file,
                ]
                &&& installer == Installer::DpkgI ==> s[1].program == "apt-get"@ && s[1].args == seq![
                    "install"@,
                    "-y"@,
                    file,
                ]
                &&& installer == Installer::RpmU ==> s[1].program == "dnf"@ && s[1].args == seq![
                    "install"@,
                    "-y"@,
                    file,
                ]
                &&& installer == Installer::FlatpakBundle ==> s[1].program == "flatpak"@ && s[1].args == seq![
                    "install"@,
                    "--user"@,
                    "-y"@,
                    file,
                ] && !s[1].needs_root
            },
            RemedyView::ReplaceFile { path, asset, url, .. } => {
                let file = text::path_join(dir, asset);
                let s = r->Ok_0;
                &&& r is Ok && s.len() == 2
                &&& s[0].program == "curl"@ && s[0].args.len() == 6 && s[0].args[4] == file && s[0].args[5] == url
                &&& s[1].program == "install"@ && s[1].args == seq!["-m755"@, file, path] && !s[1].needs_root
            },
            RemedyView::UpdatesPage { sentence, .. } => r == Err::<Seq<StepView>, Seq<char>>(sentence),
            RemedyView::Sentence { sentence } => r == Err::<Seq<StepView>, Seq<char>>(sentence),
        },
{
}

/// The check's answer from what it found: the newest release as the page
/// shows it, marked newer when its version has precedence over this copy's,
/// and the remedy for this installation exactly when it is newer.
pub fn assemble(
    current: &Version,
    latest: Option<&Release>,
    installation: Installation,
    arch: &str,
    error: Option<String>,
) -> (r: SelfUpdate)
    ensures
        r.current@ == version::display(current@),
        r.installation == installation,
        r.error == error,
        match latest {
            None => r.latest is None && r.remedy is None,
            Some(l) => {
                &&& r.latest matches Some(x) && x.version@ == version::display(l.version@) && x.notes@ == l.notes@
                    && x.published == l.published && x.url@ == l.url@ && x.newer == is_newer(l.version@, current@)
                &&& is_newer(l.version@, current@) ==> (r.remedy matches Some(m) && m@ == crate::remedy::remedy_spec(
                    installation,
                    l.version@,
                    arch@,
                    l.assets@,
                ))
                &&& !is_newer(l.version@, current@) ==> r.remedy is None
            },
        },
{
    let (shown, remedy) = match latest {
        None => (None, None),
        Some(l) => {
            let newer = l.version.precedence(current) == 1;
            let remedy = if newer {
                Some(crate::remedy::remedy(&installation, &l.version, arch, l.assets.as_slice()))
            } else {
                None
            };
            let shown = LatestRelease {
                version: l.version.to_string(),
                notes: text::string_from(l.notes.as_str()),
                published: l.published,
                url: text::string_from(l.url.as_str()),
                newer,
            };
            (Some(shown), remedy)
        },
    };
    SelfUpdate { current: current.to_string(), latest: shown, installation, remedy, error }
}

/// Where a downloaded asset goes: the `downloads` directory of the HTTP
/// client's cache, `<cache>/http/downloads`.
pub fn download_dir(cache: &str) -> (r: String)
    ensures
        r@ == text::path_join(text::path_join(cache@, "http"@), "downloads"@),
{
    let c = text::chars(cache);
    let h = text::path_join_chars(c.as_slice(), text::chars("http").as_slice());
    let d = text::path_join_chars(h.as_slice(), text::chars("downloads").as_slice());
    text::string_of(d.as_slice())
}

/// The download step, the same shape the GitHub source uses. `--fail` so a
/// 404 page is never saved under a package's name.
pub open spec fn download_view(asset: Seq<char>, url: Seq<char>, file: Seq<char>) -> StepView {
    StepView {
        source: SourceKind::Github,
        title: "Downloading "@ + asset,
        program: "curl"@,
        args: seq!["-L"@, "--fail"@, "--create-dirs"@, "-o"@, file, url],
        env: Seq::empty(),
        cwd: None,
        needs_root: false,
        weight: 3,
    }
}

/// The install step. Non-interactive flags throughout, because the helper
/// runs with no terminal and a prompt would hang the plan.
pub open spec fn install_view(installer: Installer, asset: Seq<char>, file: Seq<char>) -> StepView {
    match installer {
        Installer::PacmanU => StepView {
            source: SourceKind::Pacman,
            title: "Installing "@ + asset + " with pacman"@,
            program: "pacman"@,
            args: seq!["-U"@, "--noconfirm"@, file],
            env: Seq::empty(),
            cwd: None,
            needs_root: true,
            weight: 2,
        },
        Installer::DpkgI => StepView {
            source: SourceKind::Apt,
            title: "Installing "@ + asset + " with apt"@,
            program: "apt-get"@,
            args: seq!["install"@, "-y"@, file],
            env: seq![("DEBIAN_FRONTEND"@, "noninteractive"@)],
            cwd: None,
            needs_root: true,
            weight: 2,
        },
        Installer::RpmU => StepView {
            source: SourceKind::Dnf,
            title: "Installing "@ + asset + " with dnf"@,
            program: "dnf"@,
            args: seq!["install"@, "-y"@, file],
            env: Seq::empty(),
            cwd: None,
            needs_root: true,
            weight: 2,
        },
        Installer::FlatpakBundle => StepView {
            source: SourceKind::Flatpak,
            title: "Installing "@ + asset + " with flatpak"@,
            program: "flatpak"@,
            args: seq!["install"@, "--user"@, "-y"@, file],
            env: Seq::empty(),
            cwd: None,
            needs_root: false,
            weight: 2,
        },
    }
}

/// Putting a downloaded file in place of the running copy, with `install`
/// so one call sets the mode; never as root.
pub open spec fn replace_view(asset: Seq<char>, path: Seq<char>, file: Seq<char>) -> StepView {
    StepView {
        source: SourceKind::Github,
        title: "Putting "@ + asset + " in place of "@ + path,
        program: "install"@,
        args: seq!["-m755"@, file, path],
        env: Seq::empty(),
        cwd: None,
        needs_root: false,
        weight: 1,
    }
}

/// The steps of a remedy: a download into `dir`, then the install or the
/// replacement; a remedy that is a row on the Updates page or a sentence
/// has no steps, and asking for them is that sentence as an error.
pub open spec fn plan_spec(remedy: RemedyView, dir: Seq<char>, r: Result<Seq<StepView>, Seq<char>>) -> bool {
    match remedy {
        RemedyView::InstallAsset { asset, url, installer, .. } => r == Ok::<Seq<StepView>, Seq<char>>(
            seq![
                download_view(asset, url, text::path_join(dir, asset)),
                install_view(installer, asset, text::path_join(dir, asset)),
            ],
        ),
        RemedyView::ReplaceFile { path, asset, url, .. } => r == Ok::<Seq<StepView>, Seq<char>>(
            seq![
                download_view(asset, url, text::path_join(dir, asset)),
                replace_view(asset, path, text::path_join(dir, asset)),
            ],
        ),
        RemedyView::UpdatesPage { sentence, .. } => r == Err::<Seq<StepView>, Seq<char>>(sentence),
        RemedyView::Sentence { sentence } => r == Err::<Seq<StepView>, Seq<char>>(sentence),
    }
}

pub open spec fn result_view(r: Result<Vec<Step>, Error>) -> Result<Seq<StepView>, Seq<char>> {
    match r {
        Ok(v) => Ok(v@.map_values(|s: Step| step_view(s))),
        Err(e) => Err(e.message@),
    }
}

fn texts(words: &[&str]) -> (r: Vec<String>)
    ensures
        crate::model::strings_view(r@) == words@.map_values(|w: &str| w@),
{
    let mut r: Vec<String> = Vec::new();
    let mut i: usize = 0;
    while i < words.len()
        invariant
            i <= words@.len(),
            crate::model::strings_view(r@) == words@.take(i as int).map_values(|w: &str| w@),
        decreases words@.len() - i,
    {
        let ghost before = r@;
        r.push(text::string_from(words[i]));
        assert(crate::model::strings_view(r@) =~= crate::model::strings_view(before).push(words@[i as int]@));
        assert(words@.take(i + 1).map_values(|w: &str| w@) =~= words@.take(i as int).map_values(
            |w: &str| w@,
        ).push(words@[i as int]@));
        i = i + 1;
    }
    assert(words@.take(words@.len() as int) =~= words@);
    r
}

fn download(asset: &str, url: &str, file: &str) -> (s: Step)
    ensures
        step_view(s) == download_view(asset@, url@, file@),
{
    let mut title = text::string_from("Downloading ");
    text::push_str(&mut title, asset);
    let mut args = texts(&["-L", "--fail", "--create-dirs", "-o"]);
    let ghost before = args@;
    args.push(text::string_from(file));
    args.push(text::string_from(url));
    proof {
        reveal_strlit("-L");
        reveal_strlit("--fail");
        reveal_strlit("--create-dirs");
        reveal_strlit("-o");
        assert(crate::model::strings_view(before) =~= seq!["-L"@, "--fail"@, "--create-dirs"@, "-o"@]);
        assert(crate::model::strings_view(args@) =~= crate::model::strings_view(before).push(file@).push(url@));
        assert(crate::model::strings_view(args@) =~= seq!["-L"@, "--fail"@, "--create-dirs"@, "-o"@, file@, url@]);
        assert(crate::allow::env_view(Seq::<(String, String)>::empty()) =~= Seq::empty());
    }
    Step {
        source: SourceKind::Github,
        title,
        command: Command { program: text::string_from("curl"), args, env: Vec::new(), cwd: None },
        needs_root: false,
        weight: 3,
    }
}

fn install(installer: Installer, asset: &str, file: &str) -> (s: Step)
    ensures
        step_view(s) == install_view(installer, asset@, file@),
{
    let mut title = text::string_from("Installing ");
    text::push_str(&mut title, asset);
    let mut env: Vec<(String, String)> = Vec::new();
    let (source, program, mut args, needs_root) = match installer {
        Installer::PacmanU => {
            text::push_str(&mut title, " with pacman");
            (SourceKind::Pacman, "pacman", texts(&["-U", "--noconfirm"]), true)
        },
        Installer::DpkgI => {
            text::push_str(&mut title, " with apt");
            env.push((text::string_from("DEBIAN_FRONTEND"), text::string_from("noninteractive")));
            (SourceKind::Apt, "apt-get", texts(&["install", "-y"]), true)
        },
        Installer::RpmU => {
            text::push_str(&mut title, " with dnf");
            (SourceKind::Dnf, "dnf", texts(&["install", "-y"]), true)
        },
        Installer::FlatpakBundle => {
            text::push_str(&mut title, " with flatpak");
            (SourceKind::Flatpak, "flatpak", texts(&["install", "--user", "-y"]), false)
        },
    };
    let ghost before = crate::model::strings_view(args@);
    args.push(text::string_from(file));
    proof {
        assert(crate::model::strings_view(args@) =~= before.push(file@));
        reveal_strlit("-U");
        reveal_strlit("--noconfirm");
        reveal_strlit("install");
        reveal_strlit("-y");
        reveal_strlit("--user");
        match installer {
            Installer::PacmanU => {
                assert(before =~= seq!["-U"@, "--noconfirm"@]);
                assert(crate::model::strings_view(args@) =~= seq!["-U"@, "--noconfirm"@, file@]);
            },
            Installer::DpkgI => {
                assert(before =~= seq!["install"@, "-y"@]);
                assert(crate::model::strings_view(args@) =~= seq!["install"@, "-y"@, file@]);
                assert(crate::allow::env_view(env@) =~= seq![("DEBIAN_FRONTEND"@, "noninteractive"@)]);
            },
            Installer::RpmU => {
                assert(before =~= seq!["install"@, "-y"@]);
                assert(crate::model::strings_view(args@) =~= seq!["install"@, "-y"@, file@]);
            },
            Installer::FlatpakBundle => {
                assert(before =~= seq!["install"@, "--user"@, "-y"@]);
                assert(crate::model::strings_view(args@) =~= seq!["install"@, "--user"@, "-y"@, file@]);
            },
        }
        if !(installer is DpkgI) {
            assert(crate::allow::env_view(env@) =~= Seq::empty());
        }
    }
    Step {
        source,
        title,
        command: Command { program: text::string_from(program), args, env, cwd: None },
        needs_root,
        weight: 2,
    }
}

/// The steps that carry out an actionable remedy, downloading into `dir`.
pub fn plan(remedy: &Remedy, dir: &str) -> (r: Result<Vec<Step>, Error>)
    ensures
        plan_spec(remedy@, dir@, result_view(r)),
{
    let d = text::chars(dir);
    match remedy {
        Remedy::InstallAsset { asset, url, installer, .. } => {
            let f = text::path_join_chars(d.as_slice(), text::chars(asset.as_str()).as_slice());
            let file = text::string_of(f.as_slice());
            let mut v: Vec<Step> = Vec::new();
            v.push(download(asset.as_str(), url.as_str(), file.as_str()));
            v.push(install(*installer, asset.as_str(), file.as_str()));
            assert(v@.map_values(|s: Step| step_view(s)) =~= seq![
                download_view(asset@, url@, file@),
                install_view(*installer, asset@, file@),
            ]);
            Ok(v)
        },
        Remedy::ReplaceFile { path, asset, url, .. } => {
            let f = text::path_join_chars(d.as_slice(), text::chars(asset.as_str()).as_slice());
            let file = text::string_of(f.as_slice());
            let mut title = text::string_from("Putting ");
            text::push_str(&mut title, asset.as_str());
            text::push_str(&mut title, " in place of ");
            text::push_str(&mut title, path.as_str());
            let mut args = texts(&["-m755"]);
            let ghost before = args@;
            args.push(file.clone());
            args.push(path.clone());
            proof {
                reveal_strlit("-m755");
                assert(crate::model::strings_view(before) =~= seq!["-m755"@]);
                assert(crate::model::strings_view(args@) =~= crate::model::strings_view(before).push(file@).push(path@));
                assert(crate::model::strings_view(args@) =~= seq!["-m755"@, file@, path@]);
                assert(crate::allow::env_view(Seq::<(String, String)>::empty()) =~= Seq::empty());
            }
            let replace = Step {
                source: SourceKind::Github,
                title,
                command: Command { program: text::string_from("install"), args, env: Vec::new(), cwd: None },
                needs_root: false,
                weight: 1,
            };
            let mut v: Vec<Step> = Vec::new();
            v.push(download(asset.as_str(), url.as_str(), file.as_str()));
            v.push(replace);
            assert(v@.map_values(|s: Step| step_view(s)) =~= seq![
                download_view(asset@, url@, file@),
                replace_view(asset@, path@, file@),
            ]);
            Ok(v)
        },
        Remedy::UpdatesPage { sentence, .. } => Err(Error::new(sentence.clone())),
        Remedy::Sentence { sentence } => Err(Error::new(sentence.clone())),
    }
}

} // verus!
