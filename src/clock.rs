//! The wall clock.
use vstd::prelude::*;

verus! {

/// Relies on chrono's `From<SystemTime> for DateTime<Utc>` read through
/// `DateTime::timestamp_millis`: the current time in milliseconds since the
/// Unix epoch, negative for a clock set before it. Nothing is promised of
/// the value.
#[verifier::external_body]
pub(crate) fn now_millis() -> (r: i64) {
    chrono::DateTime::<chrono::Utc>::from(std::time::SystemTime::now()).timestamp_millis()
}

} // verus!
