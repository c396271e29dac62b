//! The one place the library reads the ambient clock: the serializer
//! substitutes the current time for a stored date it cannot read.

use vstd::prelude::*;
use crate::date::{civil_from_epoch, dt_valid, DateTime};

verus! {

/// Relies on std::time::SystemTime::now and its duration_since from the
/// Unix epoch: the seconds elapsed since that epoch, read as 0 when the
/// clock stands before it. The value depends on the ambient clock, so
/// nothing is assumed of it; callers state what holds of every outcome.
#[verifier::external_body]
fn unix_now_seconds() -> u64 {
    match std::time::SystemTime::now().duration_since(std::time::UNIX_EPOCH) {
        Ok(d) => d.as_secs(),
        Err(_) => 0,
    }
}

/// The current time as a calendar timestamp at a zero offset. The value
/// depends on the ambient clock; only its calendar validity is promised.
pub fn now_datetime() -> (r: DateTime)
    ensures
        dt_valid(r),
        r.offset_minutes == 0,
{
    civil_from_epoch(unix_now_seconds())
}

} // verus!
