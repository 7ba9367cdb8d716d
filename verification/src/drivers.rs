//! The Drivers page's data. Drivers are not managed on any distribution
//! yet, and the firmware source is not built, so the report says so.

use vstd::prelude::*;
use crate::text;
use crate::model::DriversReport;
use crate::store::Store;

verus! {

pub open spec fn report_spec(r: DriversReport) -> bool {
    &&& r.manager is None
    &&& r.manager_note matches Some(n) && n@ == "Drivers are not managed on this distribution yet."@
    &&& !r.firmware_available
    &&& r.firmware_note matches Some(n) && n@ == "The firmware source is not built yet."@
}

/// What the Drivers page shows for this store.
pub fn report(store: &Store) -> (r: DriversReport)
    ensures
        report_spec(r),
{
    DriversReport {
        manager: None,
        manager_note: Some(text::string_from("Drivers are not managed on this distribution yet.")),
        firmware_available: false,
        firmware_note: Some(text::string_from("The firmware source is not built yet.")),
    }
}

} // verus!
