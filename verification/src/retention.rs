//! History retention: rows whose last visit is older than the window are
//! pruned.
use vstd::prelude::*;

verus! {

/// Days of history kept.
pub const RETENTION_DAYS: i64 = 90;

/// Seconds in a day.
pub const DAY_SECS: i64 = 86400;

/// The oldest last-visit time (seconds since the epoch) that survives a
/// prune at `now_secs`: rows visited before it are deleted.
pub fn history_cutoff(now_secs: i64) -> (r: i64)
    requires
        now_secs >= i64::MIN + RETENTION_DAYS * DAY_SECS,
    ensures
        r == now_secs - RETENTION_DAYS * DAY_SECS,
{
    now_secs - RETENTION_DAYS * DAY_SECS
}

} // verus!
