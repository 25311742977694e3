//! The one look at the wall clock: the run's date, taken once at run start.

use vstd::prelude::*;

verus! {

/// Relies on chrono's `Utc::now` and `DateTime::format`: the current UTC
/// moment, rendered as a `%Y-%m-%d` calendar date. The result depends on the
/// clock, so nothing is promised of it; the run treats the date as an opaque
/// key.
#[verifier::external_body]
pub(crate) fn today_utc() -> String {
    chrono::Utc::now().format("%Y-%m-%d").to_string()
}

} // verus!
