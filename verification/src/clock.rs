//! The system clock.

use vstd::prelude::*;

verus! {

/// Reads the current time with `chrono::Utc::now` and converts it with
/// `DateTime::timestamp_millis` to milliseconds since the Unix epoch.
/// Nothing is claimed of the value: two readings may differ in any way.
/// `Utc::now` panics if the system clock stands before the epoch.
#[verifier::external_body]
pub(crate) fn now_millis() -> (t: i64) {
    chrono::Utc::now().timestamp_millis()
}

} // verus!
