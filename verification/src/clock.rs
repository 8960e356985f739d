//! The wall clock, read once per run.

use vstd::prelude::*;

verus! {

/// Relies on `chrono::Utc::now` and `DateTime::timestamp`: the current UTC
/// time as whole seconds since the Unix epoch. Nonnegative because
/// `Utc::now` only returns once the system clock is at or past the epoch.
#[verifier::external_body]
pub(crate) fn now_unix_seconds() -> (r: i64)
    ensures
        0 <= r,
{
    chrono::Utc::now().timestamp()
}

} // verus!
