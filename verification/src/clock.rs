//! The wall clock, behind a trusted boundary: the store stamps
//! `visited_at` with the current time.

use vstd::prelude::*;

verus! {

/// Relies on chrono's `Utc::now` (converted with `DateTime::timestamp_millis`):
/// the current time as milliseconds since the Unix epoch. The result depends
/// on the wall clock, so nothing is promised of it.
#[verifier::external_body]
pub(crate) fn now_millis() -> i64 {
    chrono::Utc::now().timestamp_millis()
}

} // verus!
