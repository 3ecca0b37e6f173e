//! The clock: the one place the library reads the current time.

use vstd::prelude::*;

verus! {

/// Relies on chrono's `Utc::now` and `DateTime::timestamp_millis`: the
/// current wall-clock time as milliseconds since the Unix epoch. The
/// result depends on the moment of the call, so nothing is assumed of
/// it; callers treat any value as a valid observation timestamp.
#[verifier::external_body]
pub(crate) fn now_millis() -> i64 {
    chrono::Utc::now().timestamp_millis()
}

} // verus!
