//! The wall clock.

use crate::limiter::Timestamp;
use vstd::prelude::*;

verus! {

/// Reads the wall clock through `chrono::Utc::now` and converts the reading
/// with `DateTime::timestamp_millis`.
///
/// Nothing is claimed of the value: two readings may be equal, and the second
/// may be the smaller one when the system clock is set back. chrono aborts the
/// reading when the system clock stands before 1970.
#[verifier::external_body]
pub(crate) fn utc_now_millis() -> (now: Timestamp) {
    chrono::Utc::now().timestamp_millis()
}

} // verus!
