//! Countdown timers driven by the simulation clock, in milliseconds.

use vstd::prelude::*;

verus! {

/// Whether a timer stops at its end or starts over.
#[derive(Debug, Clone, Copy, PartialEq, Eq, Structural)]
pub enum TimerMode {
    Once,
    Repeating,
}

/// A timer of `duration` milliseconds, of which `elapsed` have passed.
#[derive(Debug, Clone, Copy, PartialEq, Eq, Structural)]
pub struct Timer {
    pub duration: u64,
    pub elapsed: u64,
    pub mode: TimerMode,
}

/// A timer after `dt` more milliseconds, and whether it reached its end
/// during them.
pub open spec fn ticked(t: Timer, dt: u64) -> (Timer, bool) {
    match t.mode {
        TimerMode::Once => if t.elapsed >= t.duration {
            (t, false)
        } else if dt >= t.duration - t.elapsed {
            (Timer { elapsed: t.duration, ..t }, true)
        } else {
            (Timer { elapsed: (t.elapsed + dt) as u64, ..t }, false)
        },
        TimerMode::Repeating => if dt >= t.duration - t.elapsed {
            (Timer { elapsed: ((dt - (t.duration - t.elapsed)) % (t.duration as int)) as u64, ..t }, true)
        } else {
            (Timer { elapsed: (t.elapsed + dt) as u64, ..t }, false)
        },
    }
}

impl Timer {
    /// A timer that has just started.
    pub fn from_millis(duration: u64, mode: TimerMode) -> (r: Timer)
        requires
            duration > 0,
        ensures
            r == (Timer { duration, elapsed: 0, mode }),
            r.wf(),
    {
        Timer { duration, elapsed: 0, mode }
    }

    /// A repeating timer is always before its end; a one-shot timer never
    /// runs past it.
    pub open spec fn wf(self) -> bool {
        &&& self.duration > 0
        &&& self.elapsed <= self.duration
        &&& self.mode == TimerMode::Repeating ==> self.elapsed < self.duration
    }

    /// Lets `dt` milliseconds pass; returns whether the timer reached its
    /// end during them.
    pub fn tick(&mut self, dt: u64) -> (r: bool)
        requires
            old(self).wf(),
        ensures
            final(self).wf(),
            (*final(self), r) == ticked(*old(self), dt),
    {
        match self.mode {
            TimerMode::Once => {
                if self.elapsed >= self.duration {
                    false
                } else if dt >= self.duration - self.elapsed {
                    self.elapsed = self.duration;
                    true
                } else {
                    self.elapsed = self.elapsed + dt;
                    false
                }
            },
            TimerMode::Repeating => {
                if dt >= self.duration - self.elapsed {
                    self.elapsed = (dt - (self.duration - self.elapsed)) % self.duration;
                    true
                } else {
                    self.elapsed = self.elapsed + dt;
                    false
                }
            },
        }
    }

    /// Starts the timer over.
    pub fn reset(&mut self)
        ensures
            *final(self) == (Timer { elapsed: 0, ..*old(self) }),
    {
        self.elapsed = 0;
    }
}

} // verus!
