//! The system clock.

use chrono::Utc;
use vstd::prelude::*;

verus! {

/// Reads the clock: `chrono::Utc::now` and `DateTime::timestamp`, seconds
/// since the epoch. Nothing is claimed of the answer.
#[verifier::external_body]
pub(crate) fn current_timestamp() -> (now: i64) {
    Utc::now().timestamp()
}

} // verus!
