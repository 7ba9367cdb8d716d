//! Every source's updates, merged.

use vstd::prelude::*;
use crate::model::{Error, SourceKind, SourceStatus, Update};
use crate::store::Store;

verus! {

/// Every pending update, and the sources that could not say.
#[derive(Clone, Debug, PartialEq, Eq)]
pub struct UpdateList {
    pub updates: Vec<Update>,
    pub failed: Vec<(SourceKind, String)>,
    /// Unix seconds when this list was made.
    pub checked_at: i64,
}

/// What one available source answered when asked for its updates.
pub struct Answer {
    pub kind: SourceKind,
    pub result: Result<Vec<Update>, Error>,
}

/// The updates of every answer that gave some, in order.
pub open spec fn merged_updates(answers: Seq<Answer>) -> Seq<Update>
    decreases answers.len(),
{
    if answers.len() == 0 {
        Seq::empty()
    } else {
        merged_updates(answers.drop_last()) + match answers.last().result {
            Ok(u) => u@,
            Err(_) => Seq::empty(),
        }
    }
}

/// The source and sentence of every answer that failed, in order.
pub open spec fn merged_failures(answers: Seq<Answer>) -> Seq<(SourceKind, Seq<char>)>
    decreases answers.len(),
{
    if answers.len() == 0 {
        Seq::empty()
    } else {
        merged_failures(answers.drop_last()) + match answers.last().result {
            Ok(_) => Seq::empty(),
            Err(e) => seq![(answers.last().kind, e.message@)],
        }
    }
}

pub open spec fn failures_view(v: Seq<(SourceKind, String)>) -> Seq<(SourceKind, Seq<char>)> {
    v.map_values(|p: (SourceKind, String)| (p.0, p.1@))
}

/// The answers merged into one list: every update in order, and every
/// failure with its source and sentence. A failed source is never silent.
pub fn merge(answers: Vec<Answer>, checked_at: i64) -> (r: UpdateList)
    ensures
        r.updates@ == merged_updates(answers@),
        failures_view(r.failed@) == merged_failures(answers@),
        r.checked_at == checked_at,
{
    let ghost all = answers@;
    let mut list = UpdateList { updates: Vec::new(), failed: Vec::new(), checked_at };
    let mut rest = answers;
    let mut done: usize = 0;
    assert(all.len() == rest.len());
    assert(all.skip(0) =~= all);
    assert(list.updates@ =~= merged_updates(all.take(0)));
    assert(failures_view(list.failed@) =~= merged_failures(all.take(0)));
    while rest.len() > 0
        invariant
            rest@ == all.skip(done as int),
            done <= all.len(),
            all.len() <= usize::MAX,
            list.updates@ == merged_updates(all.take(done as int)),
            failures_view(list.failed@) == merged_failures(all.take(done as int)),
            list.checked_at == checked_at,
        decreases rest@.len(),
    {
        let a = rest.remove(0);
        assert(a == all[done as int]);
        assert(rest@ =~= all.skip(done + 1));
        assert(all.take(done + 1).drop_last() =~= all.take(done as int));
        assert(all.take(done + 1).last() == a);
        match a.result {
            Ok(mut u) => {
                let ghost uu = u@;
                let ghost lu = list.updates@;
                list.updates.append(&mut u);
                assert(list.updates@ =~= lu + uu);
                assert(failures_view(list.failed@) =~= merged_failures(all.take(done + 1)));
            },
            Err(e) => {
                let ghost lf = list.failed@;
                list.failed.push((a.kind, e.message));
                assert(failures_view(list.failed@) =~= failures_view(lf).push((a.kind, e.message@)));
                assert(list.updates@ =~= merged_updates(all.take(done + 1)));
            },
        }
        done = done + 1;
    }
    assert(done == all.len());
    assert(all.take(all.len() as int) =~= all);
    list
}

/// Seconds since the Unix epoch by the system clock, or 0 for a clock set
/// before it. (`SystemTime::UNIX_EPOCH.elapsed`.)
#[verifier::external_body]
fn clock_seconds() -> (r: u64) {
    std::time::UNIX_EPOCH.elapsed().map(|d| d.as_secs()).unwrap_or(0)
}

/// The positions of the sources whose status says they are available, in
/// the list's order.
pub open spec fn available_at(statuses: Seq<SourceStatus>) -> Seq<int>
    decreases statuses.len(),
{
    if statuses.len() == 0 {
        Seq::empty()
    } else {
        available_at(statuses.drop_last()) + if statuses.last().available {
            seq![statuses.len() - 1]
        } else {
            Seq::<int>::empty()
        }
    }
}

/// How the answers were collected: every source reported a status it can
/// report; exactly the sources that reported themselves available were
/// asked for their updates, once each, in the list's order; and each
/// answer is one its source can give, under its source's kind.
pub open spec fn collected_from(
    sources: Seq<Box<dyn crate::store::Source>>,
    statuses: Seq<SourceStatus>,
    answers: Seq<Answer>,
) -> bool {
    &&& statuses.len() == sources.len()
    &&& forall|i: int| 0 <= i < sources.len() ==> sources[i].status_answer(#[trigger] statuses[i])
    &&& available_at(statuses).len() == answers.len()
    &&& forall|k: int|
        0 <= k < answers.len() ==> (#[trigger] answers[k]).kind == sources[available_at(statuses)[k]].kind_view()
            && sources[available_at(statuses)[k]].updates_answer(answers[k].result)
}

/// Answers the store's sources gave when asked as the updates page asks.
pub open spec fn answered_by(answers: Seq<Answer>, sources: Seq<Box<dyn crate::store::Source>>) -> bool {
    exists|statuses: Seq<SourceStatus>| collected_from(sources, statuses, answers)
}

/// Every update across the available sources of the store, merged: the
/// updates and failures are those of answers the store's sources gave.
pub fn collect(store: &Store) -> (r: UpdateList)
    ensures
        r.checked_at >= 0,
        r.failed@.len() <= store.sources@.len(),
        exists|answers: Seq<Answer>|
            answered_by(answers, store.sources@) && r.updates@ == merged_updates(answers) && failures_view(
                r.failed@,
            ) == merged_failures(answers),
{
    let mut answers: Vec<Answer> = Vec::new();
    let ghost mut statuses: Seq<SourceStatus> = Seq::empty();
    let mut i: usize = 0;
    while i < store.sources.len()
        invariant
            i <= store.sources@.len(),
            answers@.len() <= i,
            merged_failures(answers@).len() <= answers@.len(),
            statuses.len() == i,
            forall|j: int| 0 <= j < i ==> store.sources@[j].status_answer(#[trigger] statuses[j]),
            available_at(statuses).len() == answers@.len(),
            forall|k: int|
                0 <= k < answers@.len() ==> (#[trigger] answers@[k]).kind == store.sources@[available_at(
                    statuses,
                )[k]].kind_view() && store.sources@[available_at(statuses)[k]].updates_answer(answers@[k].result),
        decreases store.sources@.len() - i,
    {
        let source = &store.sources[i];
        let status = source.status();
        let ghost st_before = statuses;
        let ghost at_before = available_at(statuses);
        proof {
            statuses = statuses.push(status);
            assert(statuses.drop_last() =~= st_before);
            assert forall|j: int| 0 <= j < i + 1 implies store.sources@[j].status_answer(#[trigger] statuses[j]) by {
                if j < i {
                    assert(statuses[j] == st_before[j]);
                }
            }
        }
        if status.available {
            let ghost before = answers@;
            let kind = source.kind();
            let result = source.updates();
            assert(store.sources@[i as int].kind_view() == kind);
            assert(store.sources@[i as int].updates_answer(result));
            answers.push(Answer { kind, result });
            proof {
                assert(answers@.drop_last() =~= before);
                assert(available_at(statuses) =~= at_before.push(i as int));
                assert forall|k: int| 0 <= k < answers@.len() implies (#[trigger] answers@[k]).kind
                    == store.sources@[available_at(statuses)[k]].kind_view() && store.sources@[available_at(
                    statuses,
                )[k]].updates_answer(answers@[k].result) by {
                    if k < before.len() {
                        assert(answers@[k] == before[k]);
                        assert(available_at(statuses)[k] == at_before[k]);
                    }
                }
            }
        } else {
            proof {
                assert(available_at(statuses) =~= at_before);
            }
        }
        i = i + 1;
    }
    let ghost given = answers@;
    let secs = clock_seconds();
    let checked_at: i64 = if secs > i64::MAX as u64 {
        i64::MAX
    } else {
        secs as i64
    };
    let r = merge(answers, checked_at);
    assert(r.failed@.len() == failures_view(r.failed@).len());
    assert(collected_from(store.sources@, statuses, given));
    assert(answered_by(given, store.sources@));
    r
}

} // verus!
