//! Poll scheduler: decides whether enough time has elapsed since the last
//! refresh to attempt another. Times are milliseconds on a monotonic clock.

use vstd::prelude::*;

verus! {

/// A refresh is due exactly when `interval_ms` or more milliseconds have
/// elapsed since `last_refresh_ms`.
pub open spec fn due(now_ms: u64, last_refresh_ms: u64, interval_ms: u64) -> bool {
    now_ms - last_refresh_ms >= interval_ms
}

/// Pure scheduler predicate: true when a refresh should be attempted.
pub fn is_due(now_ms: u64, last_refresh_ms: u64, interval_ms: u64) -> (r: bool)
    requires
        last_refresh_ms <= now_ms,
    ensures
        r == due(now_ms, last_refresh_ms, interval_ms),
{
    now_ms - last_refresh_ms >= interval_ms
}

} // verus!
