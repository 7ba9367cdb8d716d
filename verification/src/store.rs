//! The sources this machine has, and the operations across them.
//!
//! A source answers questions (search, installed, updates, details) and
//! describes how an operation would be carried out as steps, but never runs
//! anything. A store holds every source this machine can use.

use vstd::prelude::*;
use crate::text;
use crate::model::{
    Error, Op, Package, Plan, SourceKind, SourceStatus, Step, SystemInfo, Update, kind_label,
};
use crate::plan;
use crate::updates::{self, UpdateList};

verus! {

/// A search, as the page sends it.
#[derive(Clone, Debug, PartialEq, Eq)]
pub struct Query {
    pub text: String,
    /// `None` means every available source.
    pub sources: Option<Vec<SourceKind>>,
    /// Per source. Sources return their best matches first.
    pub limit: usize,
    /// Groups the user has split, as `source:id`.
    pub split: Vec<String>,
}

impl Query {
    /// A query for `text` across every source, with the usual limit.
    pub fn new(text: &str) -> (q: Query)
        ensures
            q.text@ == text@,
            q.sources is None,
            q.limit == 200,
            q.split@.len() == 0,
    {
        Query { text: text::string_from(text), sources: None, limit: 200, split: Vec::new() }
    }
}

/// One place software comes from. A source never runs anything: `plan`
/// describes, the runner executes.
pub trait Source {
    /// The kind of source this is. It is fixed: every call of `kind`
    /// answers it.
    spec fn kind_view(&self) -> SourceKind;

    fn kind(&self) -> (k: SourceKind)
        ensures
            k == self.kind_view();

    /// Whether this is a status the source can report.
    spec fn status_answer(&self, r: SourceStatus) -> bool;

    /// Whether this machine can use the source, with a reason when it
    /// cannot.
    fn status(&self) -> (r: SourceStatus)
        ensures
            self.status_answer(r);

    /// The best matches for the query, most relevant first, at most
    /// `query.limit`.
    fn search(&self, query: &Query) -> Result<Vec<Package>, Error>;

    /// Everything this source has installed on the machine.
    fn installed(&self) -> Result<Vec<Package>, Error>;

    /// Whether this is an answer the source can give when asked for its
    /// updates.
    spec fn updates_answer(&self, r: Result<Vec<Update>, Error>) -> bool;

    /// Everything this source could bring up to date.
    fn updates(&self) -> (r: Result<Vec<Update>, Error>)
        ensures
            self.updates_answer(r);

    /// The full record for one thing.
    fn details(&self, id: &str) -> Result<Package, Error>;

    /// Whether this is an answer the source can give when asked to plan
    /// this operation.
    spec fn plan_answer(&self, op: Op, r: Result<Vec<Step>, Error>) -> bool;

    /// How the operation would be carried out; an empty list means there
    /// is nothing to do.
    fn plan(&self, op: &Op) -> (r: Result<Vec<Step>, Error>)
        ensures
            self.plan_answer(*op, r);

    /// Bring the source's own index up to date, without root.
    fn refresh_index(&self) -> Result<(), Error> {
        Ok(())
    }

    /// Told how a plan that held `op` ended.
    fn finished(&self, op: &Op, ok: bool) {
    }
}

/// The sources this machine has.
pub struct Store {
    pub system: SystemInfo,
    pub sources: Vec<Box<dyn Source>>,
}

impl Store {
    /// Every source's status, in the store's order.
    pub fn statuses(&self) -> (r: Vec<SourceStatus>)
        ensures
            r@.len() == self.sources@.len(),
    {
        let mut r: Vec<SourceStatus> = Vec::new();
        let mut i: usize = 0;
        while i < self.sources.len()
            invariant
                i <= self.sources@.len(),
                r@.len() == i,
            decreases self.sources@.len() - i,
        {
            r.push(self.sources[i].status());
            i = i + 1;
        }
        r
    }

    /// The first source that reports this kind.
    pub fn source(&self, kind: SourceKind) -> (r: Option<&Box<dyn Source>>)
        ensures
            r is None <==> !has_kind(self.sources@, kind),
            r matches Some(s) ==> *s == self.sources@[first_index(self.sources@, kind)],
            r matches Some(s) ==> s.kind_view() == kind && exists|i: int|
                0 <= i < self.sources@.len() && *s == self.sources@[i] && forall|j: int|
                    0 <= j < i ==> (#[trigger] self.sources@[j]).kind_view() != kind,
    {
        let mut i: usize = 0;
        while i < self.sources.len()
            invariant
                i <= self.sources@.len(),
                forall|j: int| 0 <= j < i ==> (#[trigger] self.sources@[j]).kind_view() != kind,
            decreases self.sources@.len() - i,
        {
            if self.sources[i].kind() == kind {
                proof {
                    assert(first_of_kind_at(self.sources@, kind, i as int));
                    let c = first_index(self.sources@, kind);
                    if c < i {
                        assert(self.sources@[c].kind_view() != kind);
                    } else if c > i {
                        assert(self.sources@[i as int].kind_view() != kind);
                    }
                    assert(c == i);
                    assert(first_index(self.sources@, kind) == i as int);
                }
                let found = &self.sources[i];
                assert(*found == self.sources@[i as int]);
                return Some(found);
            }
            i = i + 1;
        }
        None
    }

    /// Every update, across every available source.
    pub fn updates(&self) -> (r: UpdateList)
        ensures
            r.checked_at >= 0,
            r.failed@.len() <= self.sources@.len(),
            exists|answers: Seq<updates::Answer>|
                updates::answered_by(answers, self.sources@) && r.updates@ == updates::merged_updates(answers)
                    && updates::failures_view(r.failed@) == updates::merged_failures(answers),
    {
        updates::collect(self)
    }

    /// Build a plan for a list of operations, grouped so every root step of
    /// one source runs in one helper invocation.
    pub fn plan(&self, ops: &[Op]) -> (r: Result<Plan, Error>)
        ensures
            r matches Ok(p) ==> p.ops@ == ops@ && plan::plan_made_from(p, ops@),
            r matches Ok(p) ==> plan::planned_by(self.sources@, ops@, p),
            r matches Err(e) ==> plan::refused_by(self.sources@, ops@, e),
            ops@.len() == 0 ==> (r matches Ok(p) && p.steps@.len() == 0),
            !sources_for_all(self.sources@, ops@) ==> r is Err,
            ops@.len() > 0 && !has_kind(self.sources@, crate::model::op_source(ops@[0])) ==> (r matches Err(e)
                && e.message@ == missing_source_text(crate::model::op_source(ops@[0])) && e.source_kind is None),
    {
        plan::build(self, ops)
    }
}

/// What one source answered to a search or a listing.
pub struct Found {
    pub kind: SourceKind,
    pub result: Result<Vec<Package>, Error>,
}

/// The packages of every answer that gave some, in order.
pub open spec fn found_packages(answers: Seq<Found>) -> Seq<Package>
    decreases answers.len(),
{
    if answers.len() == 0 {
        Seq::empty()
    } else {
        found_packages(answers.drop_last()) + match answers.last().result {
            Ok(p) => p@,
            Err(_) => Seq::empty(),
        }
    }
}

/// The source and sentence of every answer that failed, in order.
pub open spec fn found_failures(answers: Seq<Found>) -> Seq<(SourceKind, Seq<char>)>
    decreases answers.len(),
{
    if answers.len() == 0 {
        Seq::empty()
    } else {
        found_failures(answers.drop_last()) + match answers.last().result {
            Ok(_) => Seq::empty(),
            Err(e) => seq![(answers.last().kind, e.message@)],
        }
    }
}

/// The answers merged: every package in order, and every failure with its
/// source and sentence.
pub fn merge_found(answers: Vec<Found>) -> (r: (Vec<Package>, Vec<(SourceKind, String)>))
    ensures
        r.0@ == found_packages(answers@),
        updates::failures_view(r.1@) == found_failures(answers@),
{
    let ghost all = answers@;
    let mut packages: Vec<Package> = Vec::new();
    let mut failed: Vec<(SourceKind, String)> = Vec::new();
    let mut rest = answers;
    let mut done: usize = 0;
    assert(all.len() == rest.len());
    assert(all.skip(0) =~= all);
    assert(packages@ =~= found_packages(all.take(0)));
    assert(updates::failures_view(failed@) =~= found_failures(all.take(0)));
    while rest.len() > 0
        invariant
            rest@ == all.skip(done as int),
            done <= all.len(),
            all.len() <= usize::MAX,
            packages@ == found_packages(all.take(done as int)),
            updates::failures_view(failed@) == found_failures(all.take(done as int)),
        decreases rest@.len(),
    {
        let a = rest.remove(0);
        assert(a == all[done as int]);
        assert(rest@ =~= all.skip(done + 1));
        assert(all.take(done + 1).drop_last() =~= all.take(done as int));
        assert(all.take(done + 1).last() == a);
        match a.result {
            Ok(mut p) => {
                let ghost pp = p@;
                let ghost lp = packages@;
                packages.append(&mut p);
                assert(packages@ =~= lp + pp);
                assert(updates::failures_view(failed@) =~= found_failures(all.take(done + 1)));
            },
            Err(e) => {
                let ghost lf = failed@;
                failed.push((a.kind, e.message));
                assert(updates::failures_view(failed@) =~= updates::failures_view(lf).push((a.kind, e.message@)));
                assert(packages@ =~= found_packages(all.take(done + 1)));
            },
        }
        done = done + 1;
    }
    assert(all.take(all.len() as int) =~= all);
    (packages, failed)
}

/// Whether `i` is where the first source of this kind stands.
pub open spec fn first_of_kind_at(sources: Seq<Box<dyn Source>>, kind: SourceKind, i: int) -> bool {
    0 <= i < sources.len() && sources[i].kind_view() == kind && forall|j: int|
        0 <= j < i ==> (#[trigger] sources[j]).kind_view() != kind
}

/// Where the first source of this kind stands, where there is one: the
/// source the store answers for the kind.
pub open spec fn first_index(sources: Seq<Box<dyn Source>>, kind: SourceKind) -> int {
    choose|i: int| first_of_kind_at(sources, kind, i)
}

/// Whether some source in the list is of this kind.
pub open spec fn has_kind(sources: Seq<Box<dyn Source>>, kind: SourceKind) -> bool {
    exists|i: int| 0 <= i < sources.len() && (#[trigger] sources[i]).kind_view() == kind
}

/// Whether every operation's source is in the list.
pub open spec fn sources_for_all(sources: Seq<Box<dyn Source>>, ops: Seq<Op>) -> bool {
    forall|i: int| 0 <= i < ops.len() ==> has_kind(sources, #[trigger] crate::model::op_source(ops[i]))
}

/// The sentence for an operation whose source the store does not have.
pub open spec fn missing_source_text(k: SourceKind) -> Seq<char> {
    kind_label(k) + " is not a source on this machine."@
}

/// Whether a source of this kind is one a query asks for: every source
/// when it names none.
pub open spec fn wanted_by(k: SourceKind, wanted: Option<Seq<SourceKind>>) -> bool {
    match wanted {
        None => true,
        Some(w) => w.contains(k),
    }
}

pub open spec fn kinds_view(w: Option<Vec<SourceKind>>) -> Option<Seq<SourceKind>> {
    match w {
        Some(v) => Some(v@),
        None => None,
    }
}

pub open spec fn chosen(kinds: Seq<SourceKind>, available: Seq<bool>, wanted: Option<Seq<SourceKind>>) -> spec_fn(int) -> bool {
    |i: int| available[i] && wanted_by(kinds[i], wanted)
}

/// The sources a query goes to, by position: the available ones it asks
/// for, in interface order.
pub fn selected(kinds: &Vec<SourceKind>, available: &Vec<bool>, wanted: &Option<Vec<SourceKind>>) -> (r: Vec<usize>)
    requires
        kinds@.len() == available@.len(),
    ensures
        r@.map_values(|i: usize| i as int) == crate::appstream::all_where(
            kinds@.len(),
            chosen(kinds@, available@, kinds_view(*wanted)),
        ),
{
    let ghost w = kinds_view(*wanted);
    let ghost p = chosen(kinds@, available@, w);
    let mut r: Vec<usize> = Vec::new();
    let mut i: usize = 0;
    while i < kinds.len()
        invariant
            i <= kinds@.len(),
            kinds@.len() == available@.len(),
            w == kinds_view(*wanted),
            p == chosen(kinds@, available@, w),
            r@.map_values(|k: usize| k as int) == crate::appstream::all_where(i as nat, p),
        decreases kinds@.len() - i,
    {
        let asked = match wanted {
            None => true,
            Some(list) => {
                let mut found = false;
                let mut j: usize = 0;
                while j < list.len()
                    invariant
                        j <= list@.len(),
                        i < kinds@.len(),
                        found == list@.take(j as int).contains(kinds@[i as int]),
                    decreases list@.len() - j,
                {
                    if list[j] == kinds[i] {
                        found = true;
                    }
                    proof {
                        assert(list@.take(j + 1) =~= list@.take(j as int).push(list@[j as int]));
                        if found {
                            if list@[j as int] == kinds@[i as int] {
                                assert(list@.take(j + 1)[j as int] == kinds@[i as int]);
                            } else {
                                let k = choose|k: int| 0 <= k < j && list@.take(j as int)[k] == kinds@[i as int];
                                assert(list@.take(j + 1)[k] == kinds@[i as int]);
                            }
                        } else {
                            assert forall|k: int| 0 <= k < j + 1 implies #[trigger] list@.take(j + 1)[k] != kinds@[i as int] by {
                                if k < j {
                                    assert(list@.take(j + 1)[k] == list@.take(j as int)[k]);
                                }
                            }
                        }
                    }
                    j = j + 1;
                }
                assert(list@.take(list@.len() as int) =~= list@);
                found
            },
        };
        let ghost before = r@.map_values(|k: usize| k as int);
        if available[i] && asked {
            r.push(i);
            assert(r@.map_values(|k: usize| k as int) =~= before.push(i as int));
        }
        i = i + 1;
    }
    r
}

} // verus!
