//! What the application's commands decide, with nothing of the window in
//! it: the sentence an error becomes, the query a search sends, the plan a
//! preview shows and a run starts, and what a split group leaves behind.

use vstd::prelude::*;
use crate::text;
use crate::model::{Error, PackageRef, Plan, SourceKind, Step, strings_view};
use crate::settings::{Settings, SettingsView, split_key};
use crate::store::{Query, Store};

verus! {

/// The most results a source is asked for. Above this the grouper and the
/// page are sorting rows nobody scrolls to.
pub const MAX_LIMIT: usize = 300;

/// What a query that names no limit gets; the same figure as `Query::new`.
pub const DEFAULT_LIMIT: usize = 200;

pub open spec fn closes_sentence(c: char) -> bool {
    c == '.' || c == '!' || c == '?'
}

/// A message as the page shows it: trimmed, ending in a full stop unless
/// it already ends a sentence; a blank one says that nothing was said.
pub open spec fn sentence_spec(message: Seq<char>) -> Seq<char> {
    let t = text::trim(message);
    if t.len() == 0 {
        "Something went wrong and the source did not say what."@
    } else if closes_sentence(t.last()) {
        t
    } else {
        t + "."@
    }
}

/// A core error as the page shows it. Sources already write sentences;
/// this only closes the ones that forgot.
pub fn sentence(message: &str) -> (r: String)
    ensures
        r@ == sentence_spec(message@),
{
    let all = text::chars(message);
    let t = text::trim_chars(all.as_slice());
    if t.len() == 0 {
        return text::string_from("Something went wrong and the source did not say what.");
    }
    let last = t[t.len() - 1];
    let mut s = text::string_of(t.as_slice());
    if !(last == '.' || last == '!' || last == '?') {
        text::push_str(&mut s, ".");
    }
    s
}

/// The limit a source is asked for: the default for none, at most the
/// most.
pub open spec fn shaped_limit(limit: usize) -> usize {
    if limit == 0 {
        DEFAULT_LIMIT
    } else if limit > MAX_LIMIT {
        MAX_LIMIT
    } else {
        limit
    }
}

fn copy_kinds(v: &Vec<SourceKind>) -> (r: Vec<SourceKind>)
    ensures
        r@ == v@,
{
    let mut r: Vec<SourceKind> = Vec::new();
    let mut i: usize = 0;
    while i < v.len()
        invariant
            i <= v@.len(),
            r@ == v@.take(i as int),
        decreases v@.len() - i,
    {
        r.push(v[i]);
        assert(r@ =~= v@.take(i + 1));
        i = i + 1;
    }
    assert(v@.take(v@.len() as int) =~= v@);
    r
}

/// The query as the store sees it: the user's enabled sources and split
/// groups when the page named none, and a limit the sources can honour.
pub fn shape_query(query: Query, settings: &Settings) -> (r: Query)
    ensures
        r.text@ == query.text@,
        r.sources matches Some(s) && s@ == match query.sources {
            Some(q) => q@,
            None => settings.enabled_sources@,
        },
        strings_view(r.split@) == if query.split@.len() == 0 {
            strings_view(settings.split@)
        } else {
            strings_view(query.split@)
        },
        r.limit == shaped_limit(query.limit),
{
    let mut query = query;
    if query.sources.is_none() {
        query.sources = Some(copy_kinds(&settings.enabled_sources));
    }
    if query.split.len() == 0 {
        query.split = crate::plan::copy_texts(&settings.split);
    }
    query.limit = if query.limit == 0 {
        DEFAULT_LIMIT
    } else if query.limit > MAX_LIMIT {
        MAX_LIMIT
    } else {
        query.limit
    };
    query
}

/// What the confirm step shows: the steps that would run and anything the
/// user should know first.
#[derive(Clone, Debug, PartialEq)]
pub struct PlanPreview {
    pub plan: Plan,
    pub notices: Vec<String>,
}

/// A preview from the plan the store built and the notices beside it; a
/// plan that could not be built is its error as a sentence.
pub fn preview_of(built: Result<Plan, Error>, notices: Vec<String>) -> (r: Result<PlanPreview, String>)
    ensures
        match built {
            Ok(p) => r matches Ok(pv) && pv.plan == p && pv.notices == notices,
            Err(e) => r matches Err(s) && s@ == sentence_spec(e.message@),
        },
{
    match built {
        Ok(plan) => Ok(PlanPreview { plan, notices }),
        Err(e) => Err(sentence(e.message.as_str())),
    }
}

/// A dry run for the confirm step: nothing runs and nothing is recorded.
pub fn preview(store: &Store, ops: &[crate::model::Op]) -> (r: Result<PlanPreview, String>)
    ensures
        r matches Ok(pv) ==> pv.plan.ops@ == ops@ && crate::plan::plan_made_from(pv.plan, ops@)
            && pv.notices@.len() <= 1,
        r matches Ok(pv) ==> crate::plan::planned_by(store.sources@, ops@, pv.plan),
        r matches Err(s) ==> exists|e: Error| crate::plan::refused_by(store.sources@, ops@, e) && s@ == sentence_spec(e.message@),
        r matches Ok(pv) ==> (pv.notices@.len() == 1 ==> pv.notices@[0]@ == crate::plan::partial_upgrade_notice()
            && crate::plan::partial_upgrade(ops@, None)),
        r matches Ok(pv) ==> (!crate::store::has_kind(store.sources@, SourceKind::Pacman) ==> (pv.notices@.len()
            == 1 <==> crate::plan::partial_upgrade(ops@, None))),
        ops@.len() == 0 ==> (r matches Ok(pv) && pv.plan.steps@.len() == 0 && pv.notices@.len() == 0),
        !crate::store::sources_for_all(store.sources@, ops@) ==> r is Err,
        ops@.len() > 0 && !crate::store::has_kind(store.sources@, crate::model::op_source(ops@[0])) ==> (r matches Err(
            s,
        ) && s@ == sentence_spec(crate::store::missing_source_text(crate::model::op_source(ops@[0])))),
{
    let built = store.plan(ops);
    let notices = crate::plan::notices(store, ops);
    preview_of(built, notices)
}

pub open spec fn nothing_to_do() -> Seq<char> {
    "There is nothing to do. Everything asked for is already in place."@
}

/// The plan to start from the one the store built: refused when it could
/// not be built, and when it has nothing to run.
pub fn to_run(built: Result<Plan, Error>) -> (r: Result<Plan, String>)
    ensures
        match built {
            Ok(p) => if p.steps@.len() == 0 {
                r matches Err(s) && s@ == nothing_to_do()
            } else {
                r == Ok::<Plan, String>(p)
            },
            Err(e) => r matches Err(s) && s@ == sentence_spec(e.message@),
        },
{
    match built {
        Ok(plan) => {
            if plan.steps.len() == 0 {
                Err(text::string_from("There is nothing to do. Everything asked for is already in place."))
            } else {
                Ok(plan)
            }
        },
        Err(e) => Err(sentence(e.message.as_str())),
    }
}

/// Build the plan a run starts; the application starts it and answers its
/// id at once.
pub fn run_plan(store: &Store, ops: &[crate::model::Op]) -> (r: Result<Plan, String>)
    ensures
        r matches Ok(p) ==> p.steps@.len() > 0 && p.ops@ == ops@ && crate::plan::plan_made_from(p, ops@),
        r matches Ok(p) ==> crate::plan::planned_by(store.sources@, ops@, p),
        r matches Err(s) ==> s@ == nothing_to_do() || exists|e: Error|
            crate::plan::refused_by(store.sources@, ops@, e) && s@ == sentence_spec(e.message@),
        ops@.len() == 0 ==> (r matches Err(s) && s@ == nothing_to_do()),
        !crate::store::sources_for_all(store.sources@, ops@) ==> r is Err,
        ops@.len() > 0 && !crate::store::has_kind(store.sources@, crate::model::op_source(ops@[0])) ==> (r matches Err(
            s,
        ) && s@ == sentence_spec(crate::store::missing_source_text(crate::model::op_source(ops@[0])))),
{
    to_run(store.plan(ops))
}

/// The settings with this edition remembered as not belonging to its
/// group, once.
pub fn group_split(settings: Settings, package: &PackageRef) -> (r: Settings)
    ensures
        r@ == (if settings@.split.contains(split_key(package.source, package.id@)) {
            settings@
        } else {
            SettingsView { split: settings@.split.push(split_key(package.source, package.id@)), ..settings@ }
        }),
{
    let mut s = settings;
    s.add_split(package.source, package.id.as_str());
    s
}

/// A self-update has no operation the sources know, so its plan carries
/// the steps alone under a fresh id.
pub fn wrap(steps: Vec<Step>) -> (p: Plan)
    ensures
        crate::plan::plan_id(p.id@),
        p.ops@.len() == 0,
        p.steps == steps,
{
    Plan { id: crate::plan::new_id(), ops: Vec::new(), steps }
}

/// Where the update list comes from on a request.
#[derive(Clone, Copy, Debug, PartialEq, Eq)]
pub enum UpdatesFrom {
    /// The list cached less than ten minutes ago.
    Cache,
    /// The sources, after they refresh their indexes.
    Refreshed,
    /// The sources, from the databases as they are.
    Databases,
}

/// The cached list unless the page insists; a forced check, and the first
/// of a session, have the sources refresh their indexes first. Only the
/// first: after a transaction the databases it wrote are read as they are.
pub fn updates_from(force: bool, fresh_cache: bool, refreshed_this_session: bool) -> (r: UpdatesFrom)
    ensures
        r == if !force && fresh_cache {
            UpdatesFrom::Cache
        } else if force || !refreshed_this_session {
            UpdatesFrom::Refreshed
        } else {
            UpdatesFrom::Databases
        },
{
    if !force && fresh_cache {
        UpdatesFrom::Cache
    } else if force || !refreshed_this_session {
        UpdatesFrom::Refreshed
    } else {
        UpdatesFrom::Databases
    }
}

/// What a self-update check does.
#[derive(Clone, Copy, Debug, PartialEq, Eq)]
pub enum SelfCheck {
    /// Answer with the check cached this hour.
    Cache,
    /// Answer that no check was made: the setting forbids asking unasked.
    Unchecked,
    /// Ask GitHub, past the disk cache when forced.
    Ask,
}

/// An unforced check reads the caches and asks only when the setting
/// allows it, because that is what the setting promises; a forced one goes
/// past both.
pub fn self_check(force: bool, cached: bool, setting_allows: bool) -> (r: SelfCheck)
    ensures
        r == if !force && cached {
            SelfCheck::Cache
        } else if !force && !setting_allows {
            SelfCheck::Unchecked
        } else {
            SelfCheck::Ask
        },
{
    if !force && cached {
        SelfCheck::Cache
    } else if !force && !setting_allows {
        SelfCheck::Unchecked
    } else {
        SelfCheck::Ask
    }
}

/// What becomes of an event a running plan produced, besides being kept
/// and sent on: whether the sources that built the plan are told how it
/// ended, and whether the store is forgotten because the machine changed.
#[derive(Clone, Copy, Debug, PartialEq, Eq)]
pub struct Delivery {
    pub tell_sources: Option<bool>,
    pub forget_store: bool,
}

/// For an event that finished the plan with `finished`, or for any other
/// event (`None`).
pub fn delivery(finished: Option<bool>) -> (r: Delivery)
    ensures
        r.tell_sources == finished,
        r.forget_store == (finished == Some(true)),
{
    Delivery {
        tell_sources: finished,
        forget_store: match finished {
            Some(ok) => ok,
            None => false,
        },
    }
}

} // verus!
