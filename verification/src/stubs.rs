//! Sources whose modules are not written yet: each says so in its status
//! and does nothing else.

use vstd::prelude::*;
use crate::text;
use crate::model::{Error, Op, Package, SourceKind, SourceStatus, Step, SystemInfo, Update, kind_label};
use crate::store::{Query, Source};

verus! {

pub open spec fn not_built_text(kind: SourceKind) -> Seq<char> {
    "The "@ + kind_label(kind) + " source is not built yet."@
}

/// The status a source reports until its module is written.
pub fn not_built(kind: SourceKind) -> (r: SourceStatus)
    ensures
        r.kind == kind,
        !r.available,
        r.reason matches Some(m) && m@ == not_built_text(kind),
        r.detail is None,
{
    let mut s = text::string_from("The ");
    text::push_str(&mut s, kind.label());
    text::push_str(&mut s, " source is not built yet.");
    SourceStatus { kind, available: false, reason: Some(s), detail: None }
}

fn unknown_to(kind: SourceKind, id: &str) -> (e: Error)
    ensures
        e.source_kind == Some(kind),
        e.message@ == id@ + " is not known to this source."@,
{
    let mut s = text::string_from(id);
    text::push_str(&mut s, " is not known to this source.");
    Error::from_source(kind, s)
}

/// The apt source, not built yet.
pub struct Apt;

impl Apt {
    pub fn new(system: &SystemInfo) -> (r: Apt) {
        Apt
    }
}

impl Source for Apt {
    open spec fn kind_view(&self) -> SourceKind {
        SourceKind::Apt
    }

    open spec fn status_answer(&self, r: SourceStatus) -> bool {
        r.kind == SourceKind::Apt && !r.available && (r.reason matches Some(m) && m@ == not_built_text(
            SourceKind::Apt,
        )) && r.detail is None
    }

    open spec fn updates_answer(&self, r: Result<Vec<Update>, Error>) -> bool {
        r matches Ok(v) && v@.len() == 0
    }

    open spec fn plan_answer(&self, op: Op, r: Result<Vec<Step>, Error>) -> bool {
        r matches Ok(v) && v@.len() == 0
    }

    fn kind(&self) -> (k: SourceKind) {
        SourceKind::Apt
    }

    fn status(&self) -> (r: SourceStatus)
        ensures
            r.kind == SourceKind::Apt,
            !r.available,
            r.reason matches Some(m) && m@ == not_built_text(SourceKind::Apt),
            r.detail is None,
    {
        not_built(SourceKind::Apt)
    }

    fn search(&self, query: &Query) -> (r: Result<Vec<Package>, Error>)
        ensures
            r matches Ok(v) && v@.len() == 0,
    {
        Ok(Vec::new())
    }

    fn installed(&self) -> (r: Result<Vec<Package>, Error>)
        ensures
            r matches Ok(v) && v@.len() == 0,
    {
        Ok(Vec::new())
    }

    fn updates(&self) -> (r: Result<Vec<Update>, Error>)
        ensures
            r matches Ok(v) && v@.len() == 0,
    {
        Ok(Vec::new())
    }

    fn details(&self, id: &str) -> (r: Result<Package, Error>)
        ensures
            r matches Err(e) && e.source_kind == Some(SourceKind::Apt) && e.message@ == id@
                + " is not known to this source."@,
    {
        Err(unknown_to(SourceKind::Apt, id))
    }

    fn plan(&self, op: &Op) -> (r: Result<Vec<Step>, Error>)
        ensures
            r matches Ok(v) && v@.len() == 0,
    {
        Ok(Vec::new())
    }
}

/// The driver-manager source, not built yet.
pub struct Chwd;

impl Chwd {
    pub fn new(system: &SystemInfo) -> (r: Chwd) {
        Chwd
    }
}

impl Source for Chwd {
    open spec fn kind_view(&self) -> SourceKind {
        SourceKind::Chwd
    }

    open spec fn status_answer(&self, r: SourceStatus) -> bool {
        r.kind == SourceKind::Chwd && !r.available && (r.reason matches Some(m) && m@ == not_built_text(
            SourceKind::Chwd,
        )) && r.detail is None
    }

    open spec fn updates_answer(&self, r: Result<Vec<Update>, Error>) -> bool {
        r matches Ok(v) && v@.len() == 0
    }

    open spec fn plan_answer(&self, op: Op, r: Result<Vec<Step>, Error>) -> bool {
        r matches Ok(v) && v@.len() == 0
    }

    fn kind(&self) -> (k: SourceKind) {
        SourceKind::Chwd
    }

    fn status(&self) -> (r: SourceStatus)
        ensures
            r.kind == SourceKind::Chwd,
            !r.available,
            r.reason matches Some(m) && m@ == not_built_text(SourceKind::Chwd),
            r.detail is None,
    {
        not_built(SourceKind::Chwd)
    }

    fn search(&self, query: &Query) -> (r: Result<Vec<Package>, Error>)
        ensures
            r matches Ok(v) && v@.len() == 0,
    {
        Ok(Vec::new())
    }

    fn installed(&self) -> (r: Result<Vec<Package>, Error>)
        ensures
            r matches Ok(v) && v@.len() == 0,
    {
        Ok(Vec::new())
    }

    fn updates(&self) -> (r: Result<Vec<Update>, Error>)
        ensures
            r matches Ok(v) && v@.len() == 0,
    {
        Ok(Vec::new())
    }

    fn details(&self, id: &str) -> (r: Result<Package, Error>)
        ensures
            r matches Err(e) && e.source_kind == Some(SourceKind::Chwd) && e.message@ == id@
                + " is not known to this source."@,
    {
        Err(unknown_to(SourceKind::Chwd, id))
    }

    fn plan(&self, op: &Op) -> (r: Result<Vec<Step>, Error>)
        ensures
            r matches Ok(v) && v@.len() == 0,
    {
        Ok(Vec::new())
    }
}

} // verus!
