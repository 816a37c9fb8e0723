//! The heartbeat scheduler's decision logic.
//!
//! A dedicated timer thread waits on a channel with the current interval
//! as its timeout and emits one tick per elapsed interval.  The thread's
//! wait/sleep/send calls live with the caller; what is decided after each
//! wait — exit on the stop sentinel, adopt a new interval, or tick — is
//! modelled here.  Interval changes are non-preemptive: a new interval
//! takes effect for the wait after the one that received it.

use vstd::prelude::*;

verus! {

/// The value sent to the timer thread: a new interval in milliseconds,
/// where zero is the distinguished stop sentinel.
pub const STOP_SENTINEL: u64 = 0;

/// What the timer thread does after one wait ends.
#[derive(Clone, Copy, PartialEq, Eq, Structural, Debug)]
pub enum TimerStep {
    /// Leave the wait loop; the owner joins the thread, so no tick can
    /// arrive after the stop returns.
    Exit,
    /// Sleep one new interval, then emit a tick.
    SleepThenTick,
    /// Emit a tick now.
    Tick,
}

/// The scheduler state: `Running(interval)` until it observes the stop
/// sentinel, then `Stopped` forever.
pub struct Heartbeat {
    pub interval_ms: u64,
    pub running: bool,
}

impl Heartbeat {
    /// Starts in `Running` with the configured interval.
    pub fn new(interval_ms: u64) -> (r: Heartbeat)
        ensures
            r.running,
            r.interval_ms == interval_ms,
    {
        Heartbeat { interval_ms, running: true }
    }

    /// One step of the timer thread after a wait with the current
    /// interval: `received` is what the channel held, or nothing on a
    /// timeout.  The stop sentinel exits without a tick; a new interval
    /// is adopted and followed by a sleep and a tick; a timeout ticks.
    pub fn on_wait_end(&mut self, received: Option<u64>) -> (r: TimerStep)
        requires
            old(self).running,
        ensures
            match received {
                Some(v) => {
                    if v == STOP_SENTINEL {
                        &&& !final(self).running
                        &&& final(self).interval_ms == old(self).interval_ms
                        &&& r == TimerStep::Exit
                    } else {
                        &&& final(self).running
                        &&& final(self).interval_ms == v
                        &&& r == TimerStep::SleepThenTick
                    }
                },
                None => *final(self) == *old(self) && r == TimerStep::Tick,
            },
    {
        match received {
            Some(v) => {
                if v == STOP_SENTINEL {
                    self.running = false;
                    TimerStep::Exit
                } else {
                    self.interval_ms = v;
                    TimerStep::SleepThenTick
                }
            },
            None => TimerStep::Tick,
        }
    }
}

} // verus!
