//! Instants from the system clock and their iCalendar text form.

use vstd::prelude::*;
use crate::models::Timestamp;

verus! {

/// The text `YYYYMMDDTHHMMSSZ` of an instant, as chrono formats it, when
/// chrono can represent the instant.
pub uninterp spec fn utc_basic_text(ts: Timestamp) -> Option<Seq<char>>;

/// Relies on chrono's `Utc::now` and `DateTime::timestamp`: the current
/// time in whole seconds. Nothing is known of the value.
#[verifier::external_body]
pub(crate) fn now_timestamp() -> (r: Timestamp) {
    chrono::Utc::now().timestamp()
}

/// Relies on chrono's `DateTime::from_timestamp` (`None` out of its range)
/// and on `format("%Y%m%dT%H%M%SZ")`.
#[verifier::external_body]
pub(crate) fn utc_basic_stamp(ts: Timestamp) -> (r: Option<String>)
    ensures
        match r {
            Some(s) => utc_basic_text(ts) == Some(s@),
            None => utc_basic_text(ts) is None,
        },
{
    match chrono::DateTime::from_timestamp(ts, 0) {
        Some(d) => Some(d.format("%Y%m%dT%H%M%SZ").to_string()),
        None => None,
    }
}

} // verus!
