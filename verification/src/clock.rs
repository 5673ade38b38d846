//! Access to the wall clock, the one ambient input the core records.

use vstd::prelude::*;

verus! {

/// Relies on chrono's Utc::now and DateTime::timestamp: the current wall
/// time as whole seconds since the Unix epoch. Nothing is promised of the
/// value; callers state what holds of every reading.
#[verifier::external_body]
pub fn now_timestamp() -> i64 {
    chrono::Utc::now().timestamp()
}

} // verus!
