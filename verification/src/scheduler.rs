//! Refresh throttling: a pure comparison of times.

use vstd::prelude::*;

verus! {

/// The minimum number of seconds between two recomputations of the report.
pub const DEFAULT_MIN_INTERVAL: u64 = 5;

/// Time elapsed from `last_refresh` to `now`; zero when the clock reads
/// earlier than the last refresh.
pub open spec fn elapsed(now: u64, last_refresh: u64) -> nat {
    if now >= last_refresh {
        (now - last_refresh) as nat
    } else {
        0
    }
}

/// A refresh is due once at least `min_interval` has elapsed since the last one.
pub open spec fn refresh_due(now: u64, last_refresh: u64, min_interval: u64) -> bool {
    elapsed(now, last_refresh) >= min_interval
}

/// Decides whether the report is to be recomputed at time `now`.
pub fn should_refresh(now: u64, last_refresh: u64, min_interval: u64) -> (due: bool)
    ensures
        due == refresh_due(now, last_refresh, min_interval),
{
    if now >= last_refresh {
        now - last_refresh >= min_interval
    } else {
        min_interval == 0
    }
}

} // verus!
