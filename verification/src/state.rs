//! Dashboard state machine. The surrounding loop owns one
//! `DashboardState` and drives it: each tick it asks whether a refresh is
//! due, performs the remote command batch outside this crate, hands the
//! combined output (or the failure) to `apply_refresh`, renders, and
//! dispatches any key event through `handle_key`. All decisions are made
//! here on plain values; the loop only executes them.

use vstd::prelude::*;
use crate::history::{pushed, History};
use crate::sched::{due, is_due};
use crate::snapshot::{
    is_zero_snapshot, parse, snapshot_matches, spec_cpu_milli, MetricsSnapshot,
};

verus! {

/// A user input event, as the terminal layer reports it.
#[derive(PartialEq, Eq, Structural, Clone, Copy, Debug)]
pub enum KeyInput {
    /// The quit key.
    Quit,
    /// The screen-capture key.
    SnapshotRequest,
    /// Anything else.
    Other,
}

/// What the surrounding loop must do after a key is handled.
#[derive(PartialEq, Eq, Structural, Clone, Copy, Debug)]
pub enum UiAction {
    /// Leave the dashboard and restore the terminal.
    Exit,
    /// Hand off to the screen-capture collaborator, then resume.
    Capture,
    /// Nothing; keep running.
    Continue,
}

/// The dashboard's only mutable state: the latest accepted snapshot, the
/// rolling CPU history, the instant (milliseconds) of the last successful
/// refresh, and whether the loop is still running.
pub struct DashboardState {
    /// Latest accepted metrics; zeroed until the first successful refresh.
    pub snapshot: MetricsSnapshot,
    /// Rolling CPU history, appended once per successful refresh.
    pub history: History,
    /// When the last successful refresh happened, in clock milliseconds.
    pub last_refresh_ms: u64,
    /// False once the quit key has been handled.
    pub running: bool,
}

impl DashboardState {
    pub open spec fn wf(&self) -> bool {
        self.history.wf()
    }

    /// Fresh state at dashboard start: zeroed metrics, empty history, the
    /// clock read taken as the initial refresh instant.
    pub fn new(now_ms: u64) -> (st: DashboardState)
        ensures
            st.wf(),
            is_zero_snapshot(st.snapshot),
            st.history@ == Seq::<u64>::empty(),
            st.last_refresh_ms == now_ms,
            st.running,
    {
        DashboardState {
            snapshot: Default::default(),
            history: History::new(),
            last_refresh_ms: now_ms,
            running: true,
        }
    }

    /// Whether enough time has elapsed for another refresh attempt.
    pub fn refresh_due(&self, now_ms: u64, interval_ms: u64) -> (r: bool)
        requires
            self.last_refresh_ms <= now_ms,
        ensures
            r == due(now_ms, self.last_refresh_ms, interval_ms),
    {
        is_due(now_ms, self.last_refresh_ms, interval_ms)
    }

    /// Apply the outcome of one due refresh attempt.
    ///
    /// On success (`Some(raw)`, the concatenated output of the command
    /// batch) the parsed snapshot replaces the last one, its CPU value is
    /// appended to the history — the history itself survives the
    /// replacement — and the refresh instant advances to `now_ms`. On
    /// failure (`None`) nothing changes at all: the previous snapshot and
    /// history stay, and because the refresh instant is not advanced the
    /// very next due-check fires again, with no added backoff.
    pub fn apply_refresh(&mut self, now_ms: u64, outcome: Option<Vec<u8>>)
        requires
            old(self).wf(),
        ensures
            final(self).wf(),
            match outcome {
                Some(raw) => {
                    &&& snapshot_matches(final(self).snapshot, raw@)
                    &&& final(self).history@ == pushed(old(self).history@, spec_cpu_milli(raw@))
                    &&& final(self).last_refresh_ms == now_ms
                    &&& final(self).running == old(self).running
                },
                None => *final(self) == *old(self),
            },
    {
        match outcome {
            Some(raw) => {
                let snap = parse(raw.as_slice());
                self.snapshot = snap;
                let cpu = self.snapshot.cpu_usage_milli;
                self.history.push_sample(cpu);
                self.last_refresh_ms = now_ms;
            },
            None => {},
        }
    }

    /// Handle one key event. Only the quit key changes the state (it
    /// stops the loop); the capture key asks the loop to hand off to the
    /// screen-capture collaborator and resume; anything else is ignored.
    /// Metrics, history and the refresh instant are never touched, so a
    /// capture hand-off cannot lose a pending refresh.
    pub fn handle_key(&mut self, k: KeyInput) -> (a: UiAction)
        requires
            old(self).wf(),
        ensures
            final(self).wf(),
            final(self).snapshot == old(self).snapshot,
            final(self).history == old(self).history,
            final(self).last_refresh_ms == old(self).last_refresh_ms,
            match k {
                KeyInput::Quit => a == UiAction::Exit && !final(self).running,
                KeyInput::SnapshotRequest => a == UiAction::Capture && final(self).running
                    == old(self).running,
                KeyInput::Other => a == UiAction::Continue && final(self).running == old(
                    self,
                ).running,
            },
    {
        match k {
            KeyInput::Quit => {
                self.running = false;
                UiAction::Exit
            },
            KeyInput::SnapshotRequest => UiAction::Capture,
            KeyInput::Other => UiAction::Continue,
        }
    }
}

} // verus!
