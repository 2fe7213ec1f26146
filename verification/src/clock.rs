//! The wall clock.

use vstd::prelude::*;

verus! {

/// The current time in whole seconds since the Unix epoch (chrono's
/// `Utc::now`, then `DateTime::timestamp`). Nothing is stated of the value:
/// it is whatever the clock reads.
#[verifier::external_body]
pub(crate) fn unix_now() -> i64 {
    chrono::Utc::now().timestamp()
}

} // verus!
