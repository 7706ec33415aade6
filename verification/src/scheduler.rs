//! The periodic scheduler's state machine: a stopped/running flag and a
//! live interval setting, both taking effect before the next tick.
use vstd::prelude::*;

verus! {

/// What the loop driving the scheduler should do at a tick.
pub enum TickAction {
    /// The interval is zero: polling is disabled; look again shortly
    /// instead of busy-looping.
    SleepShort,
    /// Wait out the interval (in minutes) and then reconcile every feed.
    RunAfter { minutes: u64 },
    /// The scheduler was stopped; the loop ends.
    Stop,
}

/// The periodic feed scheduler: stopped or running, with a reconfigurable
/// interval in minutes (zero meaning disabled).
pub struct RssScheduler {
    pub is_running: bool,
    pub interval_minutes: u64,
}

impl RssScheduler {
    /// A stopped scheduler with the default interval of one hour.
    pub fn new() -> (r: RssScheduler)
        ensures
            !r.is_running,
            r.interval_minutes == 60,
    {
        RssScheduler { is_running: false, interval_minutes: 60 }
    }

    /// Starts the scheduler. Idempotent: reports whether a new loop must be
    /// spawned, which is the case only when it was stopped.
    pub fn start(&mut self) -> (spawn: bool)
        ensures
            final(self).is_running,
            final(self).interval_minutes == old(self).interval_minutes,
            spawn == !old(self).is_running,
    {
        if self.is_running {
            false
        } else {
            self.is_running = true;
            true
        }
    }

    /// Stops the scheduler; the loop observes this before its next tick.
    pub fn stop(&mut self)
        ensures
            !final(self).is_running,
            final(self).interval_minutes == old(self).interval_minutes,
    {
        self.is_running = false;
    }

    /// Sets the interval in minutes (zero to disable); effective before
    /// the next tick, without a restart.
    pub fn set_interval(&mut self, minutes: u64)
        ensures
            final(self).interval_minutes == minutes,
            final(self).is_running == old(self).is_running,
    {
        self.interval_minutes = minutes;
    }

    /// The current interval in minutes.
    pub fn get_interval(&self) -> (r: u64)
        ensures
            r == self.interval_minutes,
    {
        self.interval_minutes
    }

    /// What the driving loop must do next: stop when stopped, sleep
    /// shortly when disabled, otherwise wait the interval and reconcile.
    pub fn tick_action(&self) -> (r: TickAction)
        ensures
            !self.is_running ==> r is Stop,
            self.is_running && self.interval_minutes == 0 ==> r is SleepShort,
            self.is_running && self.interval_minutes > 0 ==> (r matches TickAction::RunAfter {
                minutes,
            } && minutes == self.interval_minutes),
    {
        if !self.is_running {
            TickAction::Stop
        } else if self.interval_minutes == 0 {
            TickAction::SleepShort
        } else {
            TickAction::RunAfter { minutes: self.interval_minutes }
        }
    }
}

/// One aggregate notification goes out exactly when the polling pass
/// inserted at least one new item across all feeds; silence otherwise.
pub fn should_notify(new_items: u32) -> (r: bool)
    ensures
        r == (new_items > 0),
{
    new_items > 0
}

} // verus!
