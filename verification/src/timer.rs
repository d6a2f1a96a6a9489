//! The keep-alive timer: a resettable deadline, used both as the idle
//! watchdog of a connection and, re-armed, as the timeout gate of single
//! operations. The sleeping itself belongs to the IO shell; the library
//! owns the deadline and the readiness rule.

use vstd::prelude::*;

verus! {

/// A deadline in milliseconds, movable in either direction.
pub struct KeepAliveTimer {
    deadline: u64,
}

impl KeepAliveTimer {
    /// The armed deadline, in milliseconds.
    pub closed spec fn spec_deadline(&self) -> u64 {
        self.deadline
    }

    /// Arm a timer for the given instant.
    pub fn new(deadline: u64) -> (r: Self)
        ensures
            r.spec_deadline() == deadline,
    {
        KeepAliveTimer { deadline }
    }

    /// Move the deadline; the new instant may lie before or after the old
    /// one.
    pub fn update(&mut self, deadline: u64)
        ensures
            final(self).spec_deadline() == deadline,
    {
        self.deadline = deadline;
    }

    /// The armed deadline, for the shell that programs the clock.
    pub fn deadline(&self) -> (r: u64)
        ensures
            r == self.spec_deadline(),
    {
        self.deadline
    }

    /// Whether the timer is ready: the deadline has passed.
    pub fn poll(&self, now: u64) -> (r: bool)
        ensures
            r == (now >= self.spec_deadline()),
    {
        now >= self.deadline
    }
}

} // verus!
