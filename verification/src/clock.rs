//! The wall clock, read through an outside crate. The engine itself never
//! interprets the value: a timestamp is stored as opaque scenario metadata.

use vstd::prelude::*;

verus! {

/// Relies on chrono::Utc::now for the current instant, converted with
/// chrono's DateTime::timestamp_millis to milliseconds since the Unix
/// epoch. Nothing is assumed of the value, so callers must hold for every
/// outcome. Relies on the system clock standing at or after the Unix epoch
/// (chrono::Utc::now aborts otherwise).
#[verifier::external_body]
pub(crate) fn current_timestamp_millis() -> i64 {
    chrono::Utc::now().timestamp_millis()
}

} // verus!
