//! Giving agents paths and checking them again, with exponential backoff of
//! the clearance asked of the planner.

use vstd::prelude::*;
use crate::agent::{all_bounded, Hobbit, Target, REEVALUATE_PERIOD};
use crate::fixed::Point;
use crate::timer::{ticked, Timer, TimerMode};

verus! {

/// Clearance asked of the planner by default, in thousandths.
pub const BASE_DELTA: u64 = 100;
/// Factor applied to an agent's clearance when its path fails.
pub const DELTA_FACTOR: u64 = 3;
/// Clearance past which an agent is parked.
pub const DELTA_CEILING: u64 = 10_000;
/// Wait after a failed attempt to give a path, before any agent tries again.
pub const GIVE_TARGET_COOLDOWN: u64 = 500;
/// Wait after a failed check of a path, before any agent checks again.
pub const REEVALUATE_COOLDOWN: u64 = 250;

/// An agent's clearance after one more failure: three times larger, held
/// at the largest value.
pub open spec fn backed_off(delta: u64) -> u64 {
    if delta <= u64::MAX / 3 {
        (delta * 3) as u64
    } else {
        u64::MAX
    }
}

/// Whether a planner answer can be taken as a path.
pub open spec fn usable_path(path: Option<Vec<Point>>) -> bool {
    match path {
        Some(p) => p@.len() > 0 && all_bounded(p@),
        None => true,
    }
}

/// Whether `t` heads for the first point of `p` and holds the others with
/// the second on top.
pub open spec fn follows(t: Target, p: Seq<Point>) -> bool {
    t.next == p[0] && t.path@ == p.subrange(1, p.len() as int).reverse()
}

/// Giving agent `a` the planner's answer `path` made it `b`, with result `r`.
pub open spec fn give_post(a: Hobbit, b: Hobbit, path: Option<Vec<Point>>, r: bool) -> bool {
    &&& r == path.is_some()
    &&& match path {
        Some(p) => {
            &&& b.target matches Some(t)
            &&& follows(t, p@)
            &&& t.reevaluate == (Timer { duration: REEVALUATE_PERIOD, elapsed: 0, mode: TimerMode::Repeating })
            &&& b == (Hobbit { target: b.target, parked: false, ..a })
        },
        None => b == a,
    }
}

/// Advancing the check timer of `a` by `dt` made it `b`; `r` says whether
/// its path is due to be checked.
pub open spec fn tick_post(a: Hobbit, b: Hobbit, dt: u64, r: bool) -> bool {
    match a.target {
        None => !r && b == a,
        Some(t) => {
            &&& b.target matches Some(bt)
            &&& (bt.reevaluate, r) == ticked(t.reevaluate, dt)
            &&& bt.next == t.next
            &&& bt.path == t.path
            &&& b == (Hobbit { target: b.target, ..a })
        },
    }
}

/// Checking the path of `a` again with the planner's answer `path` made it
/// `b`, with result `r`.
pub open spec fn reevaluate_post(a: Hobbit, b: Hobbit, path: Option<Vec<Point>>, r: bool) -> bool {
    &&& r == path.is_some()
    &&& match path {
        Some(p) => {
            &&& b.target matches Some(t)
            &&& follows(t, p@)
            &&& t.reevaluate == (Timer { elapsed: 0, ..a.target.unwrap().reevaluate })
            &&& b == (Hobbit { target: b.target, delta: BASE_DELTA, parked: false, ..a })
        },
        None => {
            &&& b.delta == backed_off(a.delta)
            &&& b.parked == (b.delta > DELTA_CEILING)
            &&& b.target == if b.parked {
                None
            } else {
                a.target
            }
            &&& b == (Hobbit { target: b.target, delta: b.delta, parked: b.parked, ..a })
        },
    }
}

impl Hobbit {
    /// Whether the agent waits for a path: it has none and is not parked.
    pub fn needs_path(&self) -> (r: bool)
        ensures
            r == (self.target.is_none() && !self.parked),
    {
        self.target.is_none() && !self.parked
    }

    /// Takes the planner's answer for an agent that had no path: a path
    /// becomes its target; with none, nothing changes. Returns whether a
    /// path was found.
    pub fn give_target(&mut self, path: Option<Vec<Point>>) -> (r: bool)
        requires
            old(self).wf(),
            usable_path(path),
        ensures
            final(self).wf(),
            give_post(*old(self), *final(self), path, r),
    {
        match path {
            Some(p) => {
                let t = Target::new(p);
                proof {
                    assert(all_bounded(t.path@)) by {
                        let p = path.unwrap();
                        assert forall|i: int| 0 <= i < t.path@.len() implies (#[trigger] t.path@[i]).bounded() by {
                            assert(t.path@[i] == p@[p@.len() - 1 - i]);
                        }
                    }
                }
                self.target = Some(t);
                self.parked = false;
                true
            },
            None => false,
        }
    }

    /// Advances the agent's check timer; returns whether its path is due to
    /// be checked. An agent with no path is never due.
    pub fn tick_reevaluate(&mut self, dt: u64) -> (r: bool)
        requires
            old(self).wf(),
        ensures
            final(self).wf(),
            tick_post(*old(self), *final(self), dt, r),
    {
        match self.target.take() {
            None => false,
            Some(t) => {
                let mut t = t;
                let due = t.reevaluate.tick(dt);
                self.target = Some(t);
                due
            },
        }
    }

    /// Takes the planner's answer when the agent's path was checked again.
    /// A path replaces the old one, restarts the check timer and resets the
    /// clearance. With none the clearance grows threefold, and once past the
    /// ceiling the agent drops its path and is parked until the surface is
    /// rebuilt. Returns whether a path was found.
    pub fn reevaluate_path(&mut self, path: Option<Vec<Point>>) -> (r: bool)
        requires
            old(self).wf(),
            old(self).target.is_some(),
            usable_path(path),
        ensures
            final(self).wf(),
            reevaluate_post(*old(self), *final(self), path, r),
    {
        match path {
            Some(p) => {
                let old_timer = self.target.as_ref().unwrap().reevaluate;
                let t = Target::new(p);
                proof {
                    assert(all_bounded(t.path@)) by {
                        let p = path.unwrap();
                        assert forall|i: int| 0 <= i < t.path@.len() implies (#[trigger] t.path@[i]).bounded() by {
                            assert(t.path@[i] == p@[p@.len() - 1 - i]);
                        }
                    }
                }
                let mut timer = old_timer;
                timer.reset();
                self.target = Some(Target { next: t.next, path: t.path, reevaluate: timer });
                self.delta = BASE_DELTA;
                self.parked = false;
                true
            },
            None => {
                self.delta = if self.delta <= u64::MAX / 3 {
                    self.delta * 3
                } else {
                    u64::MAX
                };
                if self.delta > DELTA_CEILING {
                    self.target = None;
                    self.parked = true;
                }
                false
            },
        }
    }

    /// Lets a parked agent plan again, after the surface was rebuilt.
    pub fn unpark(&mut self)
        ensures
            *final(self) == (Hobbit { parked: false, ..*old(self) }),
    {
        self.parked = false;
    }
}

/// The clearance never shrinks on failure, and passes the ceiling after
/// enough failures in a row: from the base value, on the fifth.
pub proof fn lemma_backoff_monotone(delta: u64)
    ensures
        backed_off(delta) >= delta,
        backed_off(BASE_DELTA) == 300,
        backed_off(backed_off(BASE_DELTA)) == 900,
        backed_off(backed_off(backed_off(BASE_DELTA))) == 2700,
        backed_off(backed_off(backed_off(backed_off(BASE_DELTA)))) == 8100,
        backed_off(backed_off(backed_off(backed_off(BASE_DELTA)))) <= DELTA_CEILING,
        backed_off(backed_off(backed_off(backed_off(backed_off(BASE_DELTA))))) > DELTA_CEILING,
{
}

/// A path handed to an agent ends where the planner's path ends: the last
/// waypoint the agent will head for is the path's last point, and the next
/// one is its first.
pub proof fn lemma_last_waypoint_kept(t: Target, p: Seq<Point>)
    requires
        p.len() > 0,
        follows(t, p),
    ensures
        t.next == p[0],
        t.path@.len() == p.len() - 1,
        t.path@.len() == 0 ==> t.next == p.last(),
        t.path@.len() > 0 ==> t.path@[0] == p.last(),
{
    if t.path@.len() > 0 {
        assert(t.path@[0] == p.subrange(1, p.len() as int)[p.len() - 2]);
    }
}

} // verus!
