//! Access classifier: decides whether one entry's last-access time is older
//! than the cutoff, and renders the qualifying record.

use crate::timefmt::{renderable, render_timestamp, stamp_of};
use vstd::prelude::*;

verus! {

/// The exclusive upper bound of the retention window: `now` minus the
/// cutoff, in seconds.
pub open spec fn age_boundary(now: int, cutoff_days: int) -> int {
    now - cutoff_days * 86400
}

/// An entry qualifies exactly when its access time is strictly before the
/// age boundary, i.e. not within `[boundary, now]` nor in the future.
pub open spec fn qualifies(access: int, now: int, cutoff_days: int) -> bool {
    access < age_boundary(now, cutoff_days)
}

/// One qualifying filesystem entry: its path and its rendered last-access
/// time. Immutable once created.
#[derive(Debug, Clone)]
pub struct AuditRecord {
    pub path: String,
    pub accessed: String,
}

impl View for AuditRecord {
    type V = (Seq<char>, Seq<char>);

    open spec fn view(&self) -> (Seq<char>, Seq<char>) {
        (self.path@, self.accessed@)
    }
}

/// The expected non-qualifying outcome: the entry was accessed within the
/// retained window. Carries the rendered access time for diagnostics.
#[derive(Debug, Clone)]
pub struct Excluded {
    pub accessed: String,
}

/// The staleness decision alone, exact for every input: true when the
/// access time is strictly older than `now - cutoff_days` days.
pub fn is_stale(access_seconds: i64, now_seconds: i64, cutoff_days: u32) -> (r: bool)
    ensures
        r == qualifies(access_seconds as int, now_seconds as int, cutoff_days as int),
{
    let boundary: i128 = (now_seconds as i128) - (cutoff_days as i128) * 86400;
    (access_seconds as i128) < boundary
}

/// Classifies one entry. Returns the audit record exactly when the access
/// time qualifies; otherwise reports the entry as excluded, with its
/// rendered access time.
pub fn classify(path: &str, access_seconds: i64, now_seconds: i64, cutoff_days: u32) -> (r: Result<
    AuditRecord,
    Excluded,
>)
    requires
        renderable(access_seconds as int),
    ensures
        r is Ok <==> qualifies(access_seconds as int, now_seconds as int, cutoff_days as int),
        r matches Ok(rec) ==> rec.path@ == path@ && rec.accessed@ == stamp_of(
            access_seconds as int,
        ),
        r matches Err(e) ==> e.accessed@ == stamp_of(access_seconds as int),
{
    let accessed = render_timestamp(access_seconds);
    if is_stale(access_seconds, now_seconds, cutoff_days) {
        Ok(AuditRecord { path: String::from_str(path), accessed })
    } else {
        Err(Excluded { accessed })
    }
}

} // verus!
