//! Wall-clock readings. What they return depends on the moment of the call, so
//! nothing is stated of it; the logic that uses a reading takes it as an argument.
use vstd::prelude::*;

verus! {

/// Relies on chrono's `Utc::now` and `DateTime::to_rfc3339`: the current UTC time as
/// an RFC 3339 timestamp.
#[verifier::external_body]
pub(crate) fn now_rfc3339() -> (r: String) {
    chrono::Utc::now().to_rfc3339()
}

/// Relies on chrono's `Utc::now` and `DateTime::timestamp_millis`: milliseconds since
/// the Unix epoch.
#[verifier::external_body]
pub(crate) fn now_millis() -> (r: i64) {
    chrono::Utc::now().timestamp_millis()
}

/// The clock in milliseconds since the Unix epoch. `Utc::now` does not return a time
/// before the epoch; the reading's signed type still admits one, and it maps to 0.
pub fn clock_millis() -> (r: u64) {
    let t = now_millis();
    if t < 0 {
        0
    } else {
        t as u64
    }
}

} // verus!
