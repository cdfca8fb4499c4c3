//! The time at which the store takes a record in.

use vstd::prelude::*;

verus! {

/// The current time in UTC as a text in the RFC 3339 form, such as
/// `2024-03-01T09:30:00.250+00:00`.
///
/// Calls `chrono::Utc::now` and formats what it returns with
/// `chrono::DateTime::to_rfc3339`. The text depends on the machine's clock, so
/// nothing is promised of it: two calls may differ, and a clock that is set
/// back makes a later call return an earlier time. `Utc::now` takes the clock
/// to stand at or after the first second of 1970 and stops the program where
/// it does not.
#[verifier::external_body]
pub(crate) fn timestamp_now() -> (now: String) {
    chrono::Utc::now().to_rfc3339()
}

} // verus!
