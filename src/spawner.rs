//! The spawner: a timer that lets a new agent in while the level has room
//! and a path exists.

use vstd::prelude::*;
use crate::timer::{ticked, Timer, TimerMode};

verus! {

/// Whether the last attempt to give a new agent a path found one.
#[derive(Debug, Clone, Copy, PartialEq, Eq, Structural)]
pub enum PathStatus {
    Open,
    Blocked,
}

/// Delay before the first agent of a level that shows a message, in
/// milliseconds.
pub const FIRST_SPAWN_AFTER_MESSAGE: u64 = 7500;
/// Delay before the first agent of a level without a message.
pub const FIRST_SPAWN: u64 = 1500;

/// The spawn timer, when one runs.
#[derive(Debug, Clone, Copy, PartialEq, Eq, Structural)]
pub struct Spawner {
    pub timer: Option<Timer>,
}

/// What a level tells the spawner.
#[derive(Debug, Clone, Copy, PartialEq, Eq, Structural)]
pub struct SpawnRules {
    /// Most agents alive at once.
    pub cap: u32,
    /// Delay between spawns, in milliseconds.
    pub delay: u64,
    /// Whether the level opens with a message.
    pub has_message: bool,
}

/// A timer of `ms` milliseconds; a zero delay waits one millisecond.
pub open spec fn delay_timer(ms: u64) -> Timer {
    Timer { duration: if ms == 0 { 1 } else { ms }, elapsed: 0, mode: TimerMode::Once }
}

/// One step of the spawner: the new spawner, the new path status, and
/// whether an agent is created now.
///
/// A level change drops the timer and opens the path status. While blocked
/// nothing happens. A running timer is advanced by `dt`; when it ends an
/// agent is created if the population is under the cap, and the timer is
/// dropped. With no timer and room left, a timer starts: after a level
/// change with the first-spawn delay, else with the level's delay.
pub open spec fn spawn_step(
    s: Spawner,
    status: PathStatus,
    level_changed: bool,
    rules: SpawnRules,
    population: int,
    dt: u64,
) -> (Spawner, PathStatus, bool) {
    let s = if level_changed { Spawner { timer: None } } else { s };
    let status = if level_changed { PathStatus::Open } else { status };
    if status == PathStatus::Blocked {
        (s, status, false)
    } else {
        match s.timer {
            Some(t) => {
                let (_t2, done) = ticked(t, dt);
                if done {
                    (Spawner { timer: None }, status, population < rules.cap)
                } else {
                    (Spawner { timer: Some(_t2) }, status, false)
                }
            },
            None => if population < rules.cap {
                let ms = if level_changed {
                    if rules.has_message {
                        FIRST_SPAWN_AFTER_MESSAGE
                    } else {
                        FIRST_SPAWN
                    }
                } else {
                    rules.delay
                };
                (Spawner { timer: Some(delay_timer(ms)) }, status, false)
            } else {
                (s, status, false)
            },
        }
    }
}

impl Spawner {
    /// A spawner with no timer running.
    pub fn new() -> (r: Spawner)
        ensures
            r.timer.is_none(),
    {
        Spawner { timer: None }
    }

    pub open spec fn wf(&self) -> bool {
        match self.timer {
            Some(t) => t.wf() && t.mode == TimerMode::Once,
            None => true,
        }
    }

    /// Advances the spawner by `dt` milliseconds; returns whether an agent
    /// is to be created now. It never is while the status is blocked or the
    /// population has reached the cap.
    pub fn spawn_hobbits(
        &mut self,
        path_status: &mut PathStatus,
        level_changed: bool,
        rules: SpawnRules,
        population: usize,
        dt: u64,
    ) -> (r: bool)
        requires
            old(self).wf(),
        ensures
            final(self).wf(),
            (*final(self), *final(path_status), r) == spawn_step(
                *old(self),
                *old(path_status),
                level_changed,
                rules,
                population as int,
                dt,
            ),
            r ==> population < rules.cap && *final(path_status) == PathStatus::Open,
    {
        if level_changed {
            self.timer = None;
            *path_status = PathStatus::Open;
        }
        if *path_status == PathStatus::Blocked {
            return false;
        }
        match self.timer {
            Some(t) => {
                let mut t = t;
                if t.tick(dt) {
                    self.timer = None;
                    (population as u64) < (rules.cap as u64)
                } else {
                    self.timer = Some(t);
                    false
                }
            },
            None => {
                if (population as u64) < (rules.cap as u64) {
                    let ms = if level_changed {
                        if rules.has_message {
                            FIRST_SPAWN_AFTER_MESSAGE
                        } else {
                            FIRST_SPAWN
                        }
                    } else {
                        rules.delay
                    };
                    let ms = if ms == 0 {
                        1
                    } else {
                        ms
                    };
                    self.timer = Some(Timer::from_millis(ms, TimerMode::Once));
                }
                false
            },
        }
    }
}

} // verus!
