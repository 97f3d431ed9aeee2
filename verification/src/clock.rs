//! The time source: reads the wall clock and reports the time elapsed
//! since the UNIX epoch. A clock standing before the epoch is an error
//! that callers must see, never a value silently substituted.

use vstd::prelude::*;

use crate::UlidError;
use std::time::SystemTime;

verus! {

/// Relies on std::time::SystemTime: `now()` compared to `UNIX_EPOCH` by
/// `duration_since` gives the elapsed time, split here into whole seconds
/// and a sub-second remainder below one billion nanoseconds; when the
/// clock stands before the epoch, `duration_since` reports an error.
#[verifier::external_body]
pub fn duration_since_epoch() -> (r: Result<(u64, u32), UlidError>)
    ensures
        r matches Ok(t) ==> t.1 < 1_000_000_000,
        r matches Err(e) ==> e == UlidError::ClockError,
{
    match SystemTime::now().duration_since(SystemTime::UNIX_EPOCH) {
        Ok(d) => Ok((d.as_secs(), d.subsec_nanos())),
        Err(_) => Err(UlidError::ClockError),
    }
}

} // verus!
