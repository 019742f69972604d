//! Parent liveness watch of a sandbox child. The child records its parent's pid at start and,
//! at most once per interval, asks again: a dead parent reparents the child, so a changed pid
//! means the host is gone and the child's spin loop should end. The check is rate limited by
//! elapsed time, not by loop iterations, so that a spinning child issues at most one system call
//! per interval. Asking the system for the parent pid is the caller's (the call is `unsafe`):
//! the watch is handed the pid at start and a probe that it calls only when a check is due.

use crate::clock::{duration_from_millis, duration_lt, duration_since, instant_now, millis_duration};
use std::time::{Duration, Instant};
use vstd::prelude::*;

verus! {

/// Default interval between two parent checks, in milliseconds.
pub const DEFAULT_CHECK_INTERVAL_MS: u64 = 250;

/// Records the parent at start and detects a reparent at a limited rate.
pub struct ParentWatch {
    pub original_ppid: i32,
    pub check_interval: Duration,
    pub last_check: Instant,
}

impl ParentWatch {
    /// A watch of `original_ppid` (the parent at start) with the default interval.
    pub fn new(original_ppid: i32) -> (r: Self)
        ensures
            r.original_ppid == original_ppid,
            r.check_interval == millis_duration(DEFAULT_CHECK_INTERVAL_MS),
    {
        Self::with_interval(duration_from_millis(DEFAULT_CHECK_INTERVAL_MS), original_ppid)
    }

    /// A watch of `original_ppid`, checking at most once per `check_interval`.
    pub fn with_interval(check_interval: Duration, original_ppid: i32) -> (r: Self)
        ensures
            r.check_interval == check_interval,
            r.original_ppid == original_ppid,
    {
        ParentWatch { original_ppid, check_interval, last_check: instant_now() }
    }

    /// Whether `current_ppid` shows that the recorded parent is gone.
    pub fn parent_changed(&self, current_ppid: i32) -> (r: bool)
        ensures
            r == (current_ppid != self.original_ppid),
    {
        current_ppid != self.original_ppid
    }

    /// One check given whether the interval has elapsed (`due`) at time `now`: when not due,
    /// `false` without calling `current_parent`; when due, the interval restarts at `now` and the
    /// result is whether the pid `current_parent` returns differs from the recorded one.
    pub fn check_when_due<F: FnOnce() -> i32>(&mut self, due: bool, now: Instant, current_parent: F) -> (r: bool)
        requires
            call_requires(current_parent, ()),
        ensures
            final(self).original_ppid == old(self).original_ppid,
            final(self).check_interval == old(self).check_interval,
            !due ==> !r && final(self).last_check == old(self).last_check,
            due ==> final(self).last_check == now && exists|pid: i32|
                #[trigger] call_ensures(current_parent, (), pid) && r == (pid != old(self).original_ppid),
    {
        if !due {
            return false;
        }
        self.last_check = now;
        let current = current_parent();
        self.parent_changed(current)
    }

    /// `true` once the parent has changed. Before the interval has elapsed since the last check
    /// it returns `false` without calling `current_parent`; otherwise it restarts the interval,
    /// calls `current_parent` once and compares its pid with the recorded one. Whether the
    /// interval has elapsed is the clock's answer, so either outcome is possible on any input.
    pub fn should_exit<F: FnOnce() -> i32>(&mut self, current_parent: F) -> (r: bool)
        requires
            call_requires(current_parent, ()),
        ensures
            final(self).original_ppid == old(self).original_ppid,
            final(self).check_interval == old(self).check_interval,
            r ==> exists|pid: i32| #[trigger] call_ensures(current_parent, (), pid) && pid != old(self).original_ppid,
            (!r && final(self).last_check == old(self).last_check) || exists|pid: i32|
                #[trigger] call_ensures(current_parent, (), pid) && r == (pid != old(self).original_ppid),
    {
        let now = instant_now();
        let elapsed = duration_since(&now, &self.last_check);
        let due = !duration_lt(&elapsed, &self.check_interval);
        self.check_when_due(due, now, current_parent)
    }
}

} // verus!
