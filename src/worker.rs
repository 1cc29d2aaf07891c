//! Scheduling of a background worker (merge, scan, prune, trash): at most one run at a
//! time, started once the repository events that call for it have been quiet for the
//! debounce interval; events during a run call for another run after it.

use vstd::prelude::*;

verus! {

/// State of one worker. Times are in milliseconds.
#[derive(Clone, Copy, Debug, PartialEq, Eq, Structural)]
pub struct Worker {
    pub running: bool,
    pub pending: bool,
    pub last_event_at: u64,
    pub debounce: u64,
}

impl Worker {
    pub fn new(debounce: u64) -> (r: Worker)
        ensures
            r == (Worker { running: false, pending: false, last_event_at: 0, debounce }),
    {
        Worker { running: false, pending: false, last_event_at: 0, debounce }
    }

    /// A repository event at `now` calls for a run.
    pub fn on_event(&mut self, now: u64)
        ensures
            *final(self) == (Worker { pending: true, last_event_at: now, ..*old(self) }),
    {
        self.pending = true;
        self.last_event_at = now;
    }

    /// Whether to start a run at `now`: when none is running, one is called for, and no
    /// event came within the debounce interval. Starting marks the worker running.
    pub fn poll(&mut self, now: u64) -> (r: bool)
        ensures
            r == (!old(self).running && old(self).pending && now >= old(self).last_event_at
                && now - old(self).last_event_at >= old(self).debounce),
            r ==> *final(self) == (Worker { running: true, pending: false, ..*old(self) }),
            !r ==> *final(self) == *old(self),
    {
        if !self.running && self.pending && now >= self.last_event_at && now - self.last_event_at
            >= self.debounce {
            self.running = true;
            self.pending = false;
            true
        } else {
            false
        }
    }

    /// The run finished.
    pub fn on_finish(&mut self)
        ensures
            *final(self) == (Worker { running: false, ..*old(self) }),
    {
        self.running = false;
    }
}

} // verus!
