use vstd::prelude::*;

verus! {

/// Relies on chrono's `Utc::now` (and `DateTime::timestamp`) for the wall
/// clock as a unix timestamp in seconds; `Utc::now` aborts on a system
/// clock set before the epoch.  Nothing is promised of the value:
/// callers must be correct for every timestamp.
#[verifier::external_body]
pub(crate) fn now_unix_ts() -> i64 {
    chrono::Utc::now().timestamp()
}

} // verus!
