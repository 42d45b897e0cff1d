//! Remote-host metrics dashboard core: a best-effort parser that turns raw
//! diagnostic-command output into a structured metrics snapshot, a bounded
//! rolling history of CPU samples, a poll scheduler, a pure dashboard
//! renderer, and the single-threaded dashboard state machine that ties them
//! together. Terminal I/O and the remote shell transport live outside this
//! crate; they hand plain values in and take plain values back.

pub mod history;
pub mod numerals;
pub mod render;
pub mod sched;
pub mod snapshot;
pub mod state;
pub mod textscan;

use vstd::prelude::*;

verus! {

/// Capacity of the rolling CPU-sample history: older samples are evicted
/// first once this many are retained.
pub const MAX_HISTORY: usize = 100;

} // verus!
