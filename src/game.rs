//! The simulation context: the live agents, the level-wide path status,
//! the spawner and the replanning cooldowns, with one method per phase of a
//! tick.

use vstd::prelude::*;
use crate::agent::{
    route_of, route_request,
    arrival_post, can_advance, cell_center, level_in_range, steer_post, advance_post, Arrival,
    AgentState, Hobbit, CELL_SIZE,
};
use crate::fixed::{div_trunc, Point, MAX_POS};
use crate::exclusion::ExclusionSet;
use crate::grid::Level;
use crate::navmesh::{build_view, surface_of, NavError, NavSurface};
use crate::replan::{
    BASE_DELTA, DELTA_CEILING, backed_off,
    give_post, reevaluate_post, tick_post, usable_path, GIVE_TARGET_COOLDOWN, REEVALUATE_COOLDOWN,
};
use crate::spawner::{spawn_step, PathStatus, SpawnRules, Spawner};
use crate::timer::{ticked, Timer, TimerMode};

verus! {

/// Something that happened to an agent, for scoring, sound and effects.
#[derive(Debug, Clone, Copy, PartialEq, Eq, Structural)]
pub enum GameEvent {
    /// The agent reached the goal and turned back.
    ReachedGoal(u64),
    /// The agent came home with its load and left the arena.
    Delivered(u64),
    /// The agent ran into an agent going the other way and was lost.
    AgentLost(u64),
    /// The agent ran into a hazard and was destroyed.
    AgentDestroyedByHazard(u64),
}

/// What an agent touched.
#[derive(Debug, Clone, Copy, PartialEq, Eq, Structural)]
pub enum ColliderKind {
    Hobbit,
    Blade,
}

/// Agent `hobbit` touches agent `other` (kind `Hobbit`) or a hazard (kind
/// `Blade`, where `other` is not used).
#[derive(Debug, Clone, Copy, PartialEq, Eq, Structural)]
pub struct Contact {
    pub hobbit: u64,
    pub other: u64,
    pub kind: ColliderKind,
}

/// The live agents and the level-wide state of the simulation.
#[derive(Debug)]
pub struct Game {
    pub hobbits: Vec<Hobbit>,
    pub path_status: PathStatus,
    pub spawner: Spawner,
    /// Running after a failed attempt to give an agent a path.
    pub give_cooldown: Option<Timer>,
    /// Running after a failed check of an agent's path.
    pub reevaluate_cooldown: Option<Timer>,
    /// The id of the next agent.
    pub next_id: u64,
}

/// Whether agent ids rise strictly along `hs`, so no two agents share one.
pub open spec fn ids_increasing(hs: Seq<Hobbit>) -> bool {
    forall|i: int, j: int| 0 <= i < j < hs.len() ==> (#[trigger] hs[i]).id < (#[trigger] hs[j]).id
}

/// The index of the first agent with id `id` in `hs`, or -1.
pub open spec fn index_of(hs: Seq<Hobbit>, id: u64) -> int
    decreases hs.len(),
{
    if hs.len() == 0 {
        -1
    } else {
        let i = index_of(hs.drop_last(), id);
        if i >= 0 {
            i
        } else if hs.last().id == id {
            hs.len() - 1
        } else {
            -1
        }
    }
}

/// Which agent a contact destroys, and the event it gives. A hazard destroys
/// the agent that touches it. Two agents going opposite ways: the seeking
/// one is lost. Agents going the same way, or no longer alive, pass.
pub open spec fn victim(hs: Seq<Hobbit>, c: Contact) -> Option<(u64, GameEvent)> {
    let i = index_of(hs, c.hobbit);
    if i < 0 {
        None
    } else {
        match c.kind {
            ColliderKind::Blade => Some((c.hobbit, GameEvent::AgentDestroyedByHazard(c.hobbit))),
            ColliderKind::Hobbit => {
                let j = index_of(hs, c.other);
                if j < 0 || hs[i].state == hs[j].state {
                    None
                } else {
                    let seeker = if hs[i].state == AgentState::Seeking {
                        c.hobbit
                    } else {
                        c.other
                    };
                    Some((seeker, GameEvent::AgentLost(seeker)))
                }
            },
        }
    }
}

/// The agents left and the events given after the contacts are taken in
/// order, each destroying at most one agent.
pub open spec fn resolve(hs: Seq<Hobbit>, contacts: Seq<Contact>) -> (Seq<Hobbit>, Seq<GameEvent>)
    decreases contacts.len(),
{
    if contacts.len() == 0 {
        (hs, seq![])
    } else {
        let (h, e) = resolve(hs, contacts.drop_last());
        match victim(h, contacts.last()) {
            Some((id, ev)) => (h.remove(index_of(h, id)), e.push(ev)),
            None => (h, e),
        }
    }
}

/// The agents kept and the events given, from the first `n` agents and
/// their arrival outcomes: delivered agents leave.
pub open spec fn settle(hs: Seq<Hobbit>, arrivals: Seq<Arrival>, n: nat) -> (Seq<Hobbit>, Seq<GameEvent>)
    decreases n,
{
    if n == 0 {
        (seq![], seq![])
    } else {
        let (h, e) = settle(hs, arrivals, (n - 1) as nat);
        let a = hs[n - 1];
        match arrivals[n - 1] {
            Arrival::Delivered => (h, e.push(GameEvent::Delivered(a.id))),
            Arrival::ReachedGoal => (h.push(a), e.push(GameEvent::ReachedGoal(a.id))),
            _ => (h.push(a), e),
        }
    }
}

/// A cooldown after `dt` more milliseconds, and whether work may go on:
/// with no cooldown it may; a running one is advanced and dropped when it
/// ends, and only then may work go on.
pub open spec fn cooled(c: Option<Timer>, dt: u64) -> (Option<Timer>, bool) {
    match c {
        None => (None, true),
        Some(t) => {
            let (t2, done) = ticked(t, dt);
            if done {
                (None, true)
            } else {
                (Some(t2), false)
            }
        },
    }
}

/// Whether every cooldown is a well-formed one-shot timer.
pub open spec fn cooldown_wf(c: Option<Timer>) -> bool {
    match c {
        Some(t) => t.wf() && t.mode == TimerMode::Once,
        None => true,
    }
}

fn cool_down(c: &mut Option<Timer>, dt: u64) -> (r: bool)
    requires
        cooldown_wf(*old(c)),
    ensures
        cooldown_wf(*final(c)),
        (*final(c), r) == cooled(*old(c), dt),
{
    match c.take() {
        None => true,
        Some(t) => {
            let mut t = t;
            if t.tick(dt) {
                true
            } else {
                *c = Some(t);
                false
            }
        },
    }
}

impl Game {
    /// No agents, an open path status, and no timers running.
    pub fn new() -> (r: Game)
        ensures
            r.wf(),
            r.hobbits@.len() == 0,
            r.path_status == PathStatus::Open,
            r.spawner.timer.is_none(),
            r.give_cooldown.is_none(),
            r.reevaluate_cooldown.is_none(),
            r.next_id == 0,
    {
        Game {
            hobbits: Vec::new(),
            path_status: PathStatus::Open,
            spawner: Spawner::new(),
            give_cooldown: None,
            reevaluate_cooldown: None,
            next_id: 0,
        }
    }

    /// Every agent is well formed and has an id below `next_id`; ids rise
    /// along the agents, so they are distinct; timers are well formed.
    pub open spec fn wf(&self) -> bool {
        &&& ids_increasing(self.hobbits@)
        &&& forall|i: int| 0 <= i < self.hobbits@.len() ==> (#[trigger] self.hobbits@[i]).wf()
        &&& forall|i: int| 0 <= i < self.hobbits@.len() ==> (#[trigger] self.hobbits@[i]).id < self.next_id
        &&& self.spawner.wf()
        &&& cooldown_wf(self.give_cooldown)
        &&& cooldown_wf(self.reevaluate_cooldown)
    }

    /// The spawn step of a tick: advances the spawner by `dt` milliseconds
    /// and creates an agent at the centre of the spawn cell when it says so.
    /// Returns the new agent's id.
    pub fn spawn_hobbits(&mut self, level: &Level, level_changed: bool, dt: u64) -> (r: Option<u64>)
        requires
            old(self).wf(),
            level_in_range(*level),
            old(self).next_id < u64::MAX,
        ensures
            final(self).wf(),
            ({
                let rules = SpawnRules {
                    cap: level.nb_hobbits,
                    delay: level.spawn_delay,
                    has_message: level.message.is_some(),
                };
                let (s, st, go) = spawn_step(
                    old(self).spawner,
                    old(self).path_status,
                    level_changed,
                    rules,
                    old(self).hobbits@.len() as int,
                    dt,
                );
                &&& final(self).spawner == s
                &&& final(self).path_status == st
                &&& r.is_some() == go
            }),
            r.is_some() ==> old(self).hobbits@.len() < level.nb_hobbits && final(self).path_status
                == PathStatus::Open,
            final(self).give_cooldown == old(self).give_cooldown,
            final(self).reevaluate_cooldown == old(self).reevaluate_cooldown,
            match r {
                Some(id) => {
                    &&& id == old(self).next_id
                    &&& final(self).next_id == old(self).next_id + 1
                    &&& final(self).hobbits@.len() == old(self).hobbits@.len() + 1
                    &&& final(self).hobbits@.drop_last() == old(self).hobbits@
                    &&& final(self).hobbits@.last() == Hobbit::new_spec(
                        id,
                        cell_center(level.start.1 as int, level.start.2 as int),
                    )
                },
                None => final(self).hobbits@ == old(self).hobbits@ && final(self).next_id == old(
                    self,
                ).next_id,
            },
    {
        let rules = SpawnRules {
            cap: level.nb_hobbits,
            delay: level.spawn_delay,
            has_message: level.message.is_some(),
        };
        let population = self.hobbits.len();
        let go = self.spawner.spawn_hobbits(&mut self.path_status, level_changed, rules, population, dt);
        if !go {
            return None;
        }
        let id = self.next_id;
        let start = Point { x: level.start.1 as i64 * CELL_SIZE, y: level.start.2 as i64 * CELL_SIZE };
        let h = Hobbit::new(id, start);
        self.hobbits.push(h);
        self.next_id = self.next_id + 1;
        Some(id)
    }

    /// The steering step of a tick, for every agent.
    pub fn move_to_target(&mut self, dt: u32)
        requires
            old(self).wf(),
        ensures
            final(self).wf(),
            final(self).hobbits@.len() == old(self).hobbits@.len(),
            forall|i: int|
                0 <= i < old(self).hobbits@.len() ==> steer_post(
                    #[trigger] old(self).hobbits@[i],
                    final(self).hobbits@[i],
                    dt as int,
                ),
            final(self).path_status == old(self).path_status,
            final(self).spawner == old(self).spawner,
            final(self).give_cooldown == old(self).give_cooldown,
            final(self).reevaluate_cooldown == old(self).reevaluate_cooldown,
            final(self).next_id == old(self).next_id,
    {
        let ghost before = self.hobbits@;
        let mut i: usize = 0;
        while i < self.hobbits.len()
            invariant
                i <= self.hobbits@.len() == before.len(),
                self.wf(),
                self.path_status == old(self).path_status,
                self.spawner == old(self).spawner,
                self.give_cooldown == old(self).give_cooldown,
                self.reevaluate_cooldown == old(self).reevaluate_cooldown,
                self.next_id == old(self).next_id,
                before == old(self).hobbits@,
                forall|j: int| 0 <= j < i ==> steer_post(#[trigger] before[j], self.hobbits@[j], dt as int),
                forall|j: int| i <= j < before.len() ==> #[trigger] self.hobbits@[j] == before[j],
            decreases before.len() - i,
        {
            self.hobbits[i].move_to_target(dt);
            i = i + 1;
        }
    }

    /// Whether every agent stays in range when moved for `dt` milliseconds.
    pub fn advance_in_range(&self, dt: u32) -> (r: bool)
        requires
            self.wf(),
        ensures
            r == forall|i: int| 0 <= i < self.hobbits@.len() ==> can_advance(#[trigger] self.hobbits@[i], dt as int),
    {
        let mut i: usize = 0;
        while i < self.hobbits.len()
            invariant
                i <= self.hobbits@.len(),
                self.wf(),
                forall|j: int| 0 <= j < i ==> can_advance(#[trigger] self.hobbits@[j], dt as int),
            decreases self.hobbits@.len() - i,
        {
            let h = &self.hobbits[i];
            let t = dt as i128;
            let vx = h.velocity.x as i128;
            let vy = h.velocity.y as i128;
            assert(self.hobbits@[i as int].wf());
            assert(-8000 * 0x1_0000_0000 <= vx * t <= 8000 * 0x1_0000_0000) by (nonlinear_arith)
                requires
                    -8000 <= vx <= 8000,
                    0 <= t <= 0x1_0000_0000,
            ;
            assert(-8000 * 0x1_0000_0000 <= vy * t <= 8000 * 0x1_0000_0000) by (nonlinear_arith)
                requires
                    -8000 <= vy <= 8000,
                    0 <= t <= 0x1_0000_0000,
            ;
            let x = h.position.x as i128 + div_trunc(vx * t, 1000);
            let y = h.position.y as i128 + div_trunc(vy * t, 1000);
            if x < -(MAX_POS as i128) || x > MAX_POS as i128 || y < -(MAX_POS as i128) || y > MAX_POS as i128 {
                return false;
            }
            i = i + 1;
        }
        true
    }

    /// Moves every agent at its velocity for `dt` milliseconds.
    pub fn advance(&mut self, dt: u32)
        requires
            old(self).wf(),
            forall|i: int| 0 <= i < old(self).hobbits@.len() ==> can_advance(#[trigger] old(self).hobbits@[i], dt as int),
        ensures
            final(self).wf(),
            final(self).hobbits@.len() == old(self).hobbits@.len(),
            forall|i: int|
                0 <= i < old(self).hobbits@.len() ==> advance_post(
                    #[trigger] old(self).hobbits@[i],
                    final(self).hobbits@[i],
                    dt as int,
                ),
            final(self).path_status == old(self).path_status,
            final(self).spawner == old(self).spawner,
            final(self).give_cooldown == old(self).give_cooldown,
            final(self).reevaluate_cooldown == old(self).reevaluate_cooldown,
            final(self).next_id == old(self).next_id,
    {
        let ghost before = self.hobbits@;
        let mut i: usize = 0;
        while i < self.hobbits.len()
            invariant
                i <= self.hobbits@.len() == before.len(),
                self.wf(),
                self.path_status == old(self).path_status,
                self.spawner == old(self).spawner,
                self.give_cooldown == old(self).give_cooldown,
                self.reevaluate_cooldown == old(self).reevaluate_cooldown,
                self.next_id == old(self).next_id,
                before == old(self).hobbits@,
                forall|j: int| 0 <= j < before.len() ==> can_advance(#[trigger] before[j], dt as int),
                forall|j: int| 0 <= j < i ==> advance_post(#[trigger] before[j], self.hobbits@[j], dt as int),
                forall|j: int| i <= j < before.len() ==> #[trigger] self.hobbits@[j] == before[j],
            decreases before.len() - i,
        {
            self.hobbits[i].advance(dt);
            i = i + 1;
        }
    }

    /// The arrival step of a tick: every agent checks whether it reached its
    /// waypoint. Returns each agent's outcome, by index.
    pub fn reach_target(&mut self) -> (r: Vec<Arrival>)
        requires
            old(self).wf(),
        ensures
            final(self).wf(),
            final(self).hobbits@.len() == old(self).hobbits@.len(),
            r@.len() == old(self).hobbits@.len(),
            forall|i: int|
                0 <= i < old(self).hobbits@.len() ==> arrival_post(
                    #[trigger] old(self).hobbits@[i],
                    final(self).hobbits@[i],
                    r@[i],
                ),
            final(self).path_status == old(self).path_status,
            final(self).spawner == old(self).spawner,
            final(self).give_cooldown == old(self).give_cooldown,
            final(self).reevaluate_cooldown == old(self).reevaluate_cooldown,
            final(self).next_id == old(self).next_id,
    {
        let ghost before = self.hobbits@;
        let mut out: Vec<Arrival> = Vec::new();
        let mut i: usize = 0;
        while i < self.hobbits.len()
            invariant
                i <= self.hobbits@.len() == before.len(),
                out@.len() == i,
                self.wf(),
                self.path_status == old(self).path_status,
                self.spawner == old(self).spawner,
                self.give_cooldown == old(self).give_cooldown,
                self.reevaluate_cooldown == old(self).reevaluate_cooldown,
                self.next_id == old(self).next_id,
                before == old(self).hobbits@,
                forall|j: int| 0 <= j < i ==> arrival_post(#[trigger] before[j], self.hobbits@[j], out@[j]),
                forall|j: int| i <= j < before.len() ==> #[trigger] self.hobbits@[j] == before[j],
            decreases before.len() - i,
        {
            let a = self.hobbits[i].reach_target();
            out.push(a);
            i = i + 1;
        }
        out
    }

    /// Removes the agents whose outcome, by index, is `Delivered`, and gives
    /// the events of the outcomes in order: `Delivered` and `ReachedGoal`.
    pub fn settle_arrivals(&mut self, arrivals: &Vec<Arrival>) -> (r: Vec<GameEvent>)
        requires
            old(self).wf(),
            arrivals@.len() == old(self).hobbits@.len(),
        ensures
            final(self).wf(),
            (final(self).hobbits@, r@) == settle(old(self).hobbits@, arrivals@, old(self).hobbits@.len()),
            final(self).path_status == old(self).path_status,
            final(self).spawner == old(self).spawner,
            final(self).give_cooldown == old(self).give_cooldown,
            final(self).reevaluate_cooldown == old(self).reevaluate_cooldown,
            final(self).next_id == old(self).next_id,
    {
        let ghost before = self.hobbits@;
        let mut kept: Vec<Hobbit> = Vec::new();
        let mut events: Vec<GameEvent> = Vec::new();
        let mut all: Vec<Hobbit> = Vec::new();
        std::mem::swap(&mut all, &mut self.hobbits);
        let mut i: usize = 0;
        let n = all.len();
        while i < n
            invariant
                n == before.len() == arrivals@.len(),
                i <= n,
                all@ == before.subrange(i as int, n as int),
                (kept@, events@) == settle(before, arrivals@, i as nat),
                forall|j: int| 0 <= j < kept@.len() ==> (#[trigger] kept@[j]).wf() && kept@[j].id < self.next_id,
                forall|j: int| 0 <= j < n ==> (#[trigger] before[j]).wf() && before[j].id < self.next_id,
                ids_increasing(before),
                ids_increasing(kept@),
                forall|j: int, m: int| 0 <= j < kept@.len() && i <= m < n ==> (#[trigger] kept@[j]).id < (#[trigger] before[m]).id,
            decreases n - i,
        {
            let h = all.remove(0);
            assert(h == before[i as int]);
            let a = arrivals[i];
            match a {
                Arrival::Delivered => {
                    events.push(GameEvent::Delivered(h.id));
                },
                Arrival::ReachedGoal => {
                    events.push(GameEvent::ReachedGoal(h.id));
                    kept.push(h);
                },
                _ => {
                    kept.push(h);
                },
            }
            proof {
                assert(all@ =~= before.subrange(i as int + 1, n as int));
            }
            i = i + 1;
        }
        self.hobbits = kept;
        events
    }

    /// Whether agents without a path may ask for one this tick: advances the
    /// cooldown that a failed attempt started.
    pub fn give_target_ready(&mut self, dt: u64) -> (r: bool)
        requires
            old(self).wf(),
        ensures
            final(self).wf(),
            (final(self).give_cooldown, r) == cooled(old(self).give_cooldown, dt),
            *final(self) == (Game { give_cooldown: final(self).give_cooldown, ..*old(self) }),
    {
        cool_down(&mut self.give_cooldown, dt)
    }

    /// The indices, in order, of the agents that wait for a path: without
    /// one and not parked.
    pub fn hobbits_needing_path(&self) -> (r: Vec<usize>)
        ensures
            forall|k: int| 0 <= k < r@.len() ==> (#[trigger] r@[k]) < self.hobbits@.len(),
            forall|k: int, m: int| 0 <= k < m < r@.len() ==> r@[k] < r@[m],
            forall|j: int|
                0 <= j < self.hobbits@.len() ==> (r@.contains(j as usize) <==> (
                #[trigger] self.hobbits@[j]).target.is_none() && !self.hobbits@[j].parked),
    {
        let mut out: Vec<usize> = Vec::new();
        let mut i: usize = 0;
        while i < self.hobbits.len()
            invariant
                i <= self.hobbits@.len(),
                forall|k: int| 0 <= k < out@.len() ==> (#[trigger] out@[k]) < i,
                forall|k: int, m: int| 0 <= k < m < out@.len() ==> out@[k] < out@[m],
                forall|j: int|
                    0 <= j < i ==> (out@.contains(j as usize) <==> (
                    #[trigger] self.hobbits@[j]).target.is_none() && !self.hobbits@[j].parked),
            decreases self.hobbits@.len() - i,
        {
            let ghost prev = out@;
            if self.hobbits[i].needs_path() {
                out.push(i);
            }
            proof {
                assert forall|j: int| 0 <= j <= i implies (out@.contains(j as usize) <==> (
                #[trigger] self.hobbits@[j]).target.is_none() && !self.hobbits@[j].parked) by {
                    if out@.contains(j as usize) && j < i {
                        let k = choose|k: int| 0 <= k < out@.len() && out@[k] == j as usize;
                        if k < prev.len() {
                            assert(prev.contains(j as usize));
                        }
                    }
                    if j < i && prev.contains(j as usize) {
                        let k = choose|k: int| 0 <= k < prev.len() && prev[k] == j as usize;
                        assert(out@[k] == j as usize);
                    }
                    if j == i && out@.contains(j as usize) {
                        let k = choose|k: int| 0 <= k < out@.len() && out@[k] == j as usize;
                        if k < prev.len() {
                            assert(prev[k] < i);
                        }
                    }
                    if j == i && self.hobbits@[j].target.is_none() && !self.hobbits@[j].parked {
                        assert(out@[out@.len() - 1] == i);
                    }
                }
            }
            i = i + 1;
        }
        out
    }

    /// Takes the planner's answer for agent `i`, which had no path. A path
    /// becomes its target and opens the path status. With none the status
    /// is blocked and a cooldown of `GIVE_TARGET_COOLDOWN` starts.
    pub fn give_target(&mut self, i: usize, path: Option<Vec<Point>>) -> (r: bool)
        requires
            old(self).wf(),
            i < old(self).hobbits@.len(),
            usable_path(path),
        ensures
            final(self).wf(),
            final(self).hobbits@.len() == old(self).hobbits@.len(),
            give_post(old(self).hobbits@[i as int], final(self).hobbits@[i as int], path, r),
            forall|j: int|
                0 <= j < old(self).hobbits@.len() && j != i ==> #[trigger] final(self).hobbits@[j]
                    == old(self).hobbits@[j],
            r ==> final(self).path_status == PathStatus::Open && final(self).give_cooldown == old(
                self,
            ).give_cooldown,
            !r ==> final(self).path_status == PathStatus::Blocked && final(self).give_cooldown == Some(
                Timer { duration: GIVE_TARGET_COOLDOWN, elapsed: 0, mode: TimerMode::Once },
            ),
            final(self).spawner == old(self).spawner,
            final(self).reevaluate_cooldown == old(self).reevaluate_cooldown,
            final(self).next_id == old(self).next_id,
    {
        let found = self.hobbits[i].give_target(path);
        if found {
            self.path_status = PathStatus::Open;
        } else {
            self.path_status = PathStatus::Blocked;
            self.give_cooldown = Some(Timer::from_millis(GIVE_TARGET_COOLDOWN, TimerMode::Once));
        }
        found
    }

    /// Whether paths may be checked this tick: advances the cooldown that a
    /// failed check started.
    pub fn reevaluate_ready(&mut self, dt: u64) -> (r: bool)
        requires
            old(self).wf(),
        ensures
            final(self).wf(),
            (final(self).reevaluate_cooldown, r) == cooled(old(self).reevaluate_cooldown, dt),
            *final(self) == (Game { reevaluate_cooldown: final(self).reevaluate_cooldown, ..*old(self) }),
    {
        cool_down(&mut self.reevaluate_cooldown, dt)
    }

    /// Advances the check timer of agent `i`; returns whether its path is
    /// due to be checked.
    pub fn tick_reevaluate(&mut self, i: usize, dt: u64) -> (r: bool)
        requires
            old(self).wf(),
            i < old(self).hobbits@.len(),
        ensures
            final(self).wf(),
            final(self).hobbits@.len() == old(self).hobbits@.len(),
            tick_post(old(self).hobbits@[i as int], final(self).hobbits@[i as int], dt, r),
            forall|j: int|
                0 <= j < old(self).hobbits@.len() && j != i ==> #[trigger] final(self).hobbits@[j]
                    == old(self).hobbits@[j],
            final(self).path_status == old(self).path_status,
            final(self).spawner == old(self).spawner,
            final(self).give_cooldown == old(self).give_cooldown,
            final(self).reevaluate_cooldown == old(self).reevaluate_cooldown,
            final(self).next_id == old(self).next_id,
    {
        self.hobbits[i].tick_reevaluate(dt)
    }

    /// Takes the planner's answer for agent `i`, whose path was checked
    /// again. With none, a cooldown of `REEVALUATE_COOLDOWN` starts.
    pub fn reevaluate_path(&mut self, i: usize, path: Option<Vec<Point>>) -> (r: bool)
        requires
            old(self).wf(),
            i < old(self).hobbits@.len(),
            old(self).hobbits@[i as int].target.is_some(),
            usable_path(path),
        ensures
            final(self).wf(),
            final(self).hobbits@.len() == old(self).hobbits@.len(),
            reevaluate_post(old(self).hobbits@[i as int], final(self).hobbits@[i as int], path, r),
            forall|j: int|
                0 <= j < old(self).hobbits@.len() && j != i ==> #[trigger] final(self).hobbits@[j]
                    == old(self).hobbits@[j],
            final(self).reevaluate_cooldown == if r {
                old(self).reevaluate_cooldown
            } else {
                Some(Timer { duration: REEVALUATE_COOLDOWN, elapsed: 0, mode: TimerMode::Once })
            },
            final(self).path_status == old(self).path_status,
            final(self).spawner == old(self).spawner,
            final(self).give_cooldown == old(self).give_cooldown,
            final(self).next_id == old(self).next_id,
    {
        let found = self.hobbits[i].reevaluate_path(path);
        if !found {
            self.reevaluate_cooldown = Some(Timer::from_millis(REEVALUATE_COOLDOWN, TimerMode::Once));
        }
        found
    }

    /// After the surface was rebuilt, parked agents may plan again.
    pub fn surface_rebuilt(&mut self)
        requires
            old(self).wf(),
        ensures
            final(self).wf(),
            final(self).hobbits@.len() == old(self).hobbits@.len(),
            forall|j: int|
                0 <= j < old(self).hobbits@.len() ==> #[trigger] final(self).hobbits@[j] == (Hobbit {
                    parked: false,
                    ..old(self).hobbits@[j]
                }),
            final(self).path_status == old(self).path_status,
            final(self).spawner == old(self).spawner,
            final(self).give_cooldown == old(self).give_cooldown,
            final(self).reevaluate_cooldown == old(self).reevaluate_cooldown,
            final(self).next_id == old(self).next_id,
    {
        let ghost before = self.hobbits@;
        let mut i: usize = 0;
        while i < self.hobbits.len()
            invariant
                i <= self.hobbits@.len() == before.len(),
                self.wf(),
                self.path_status == old(self).path_status,
                self.spawner == old(self).spawner,
                self.give_cooldown == old(self).give_cooldown,
                self.reevaluate_cooldown == old(self).reevaluate_cooldown,
                self.next_id == old(self).next_id,
                before == old(self).hobbits@,
                forall|j: int| 0 <= j < i ==> #[trigger] self.hobbits@[j] == (Hobbit { parked: false, ..before[j] }),
                forall|j: int| i <= j < before.len() ==> #[trigger] self.hobbits@[j] == before[j],
            decreases before.len() - i,
        {
            self.hobbits[i].unpark();
            i = i + 1;
        }
    }

    /// Rebuilds the navigation surface after the blocked cells changed, and
    /// lets parked agents plan again. On failure nothing else changes.
    pub fn rebuild(&mut self, level: &Level, exclusions: &ExclusionSet) -> (r: Result<NavSurface, NavError>)
        requires
            old(self).wf(),
            level.wf(),
        ensures
            final(self).wf(),
            build_view(r) == surface_of(*level, exclusions.order()),
            final(self).hobbits@.len() == old(self).hobbits@.len(),
            forall|j: int|
                0 <= j < old(self).hobbits@.len() ==> #[trigger] final(self).hobbits@[j] == (Hobbit {
                    parked: old(self).hobbits@[j].parked && r.is_err(),
                    ..old(self).hobbits@[j]
                }),
            final(self).path_status == old(self).path_status,
            final(self).spawner == old(self).spawner,
            final(self).give_cooldown == old(self).give_cooldown,
            final(self).reevaluate_cooldown == old(self).reevaluate_cooldown,
            final(self).next_id == old(self).next_id,
    {
        let r = level.as_navmesh(exclusions.cells());
        if r.is_ok() {
            self.surface_rebuilt();
        } else {
            proof {
                assert forall|j: int| 0 <= j < self.hobbits@.len() implies #[trigger] self.hobbits@[j] == (Hobbit {
                    parked: self.hobbits@[j].parked && r.is_err(),
                    ..self.hobbits@[j]
                }) by {
                }
            }
        }
        r
    }

    /// The collision step of a tick: takes the contacts in order and removes
    /// the agents they destroy, giving one event per destroyed agent.
    pub fn colliding_hobbits(&mut self, contacts: &Vec<Contact>) -> (r: Vec<GameEvent>)
        requires
            old(self).wf(),
        ensures
            final(self).wf(),
            (final(self).hobbits@, r@) == resolve(old(self).hobbits@, contacts@),
            final(self).path_status == old(self).path_status,
            final(self).spawner == old(self).spawner,
            final(self).give_cooldown == old(self).give_cooldown,
            final(self).reevaluate_cooldown == old(self).reevaluate_cooldown,
            final(self).next_id == old(self).next_id,
    {
        let ghost before = self.hobbits@;
        let mut events: Vec<GameEvent> = Vec::new();
        let mut k: usize = 0;
        while k < contacts.len()
            invariant
                k <= contacts@.len(),
                self.wf(),
                self.path_status == old(self).path_status,
                self.spawner == old(self).spawner,
                self.give_cooldown == old(self).give_cooldown,
                self.reevaluate_cooldown == old(self).reevaluate_cooldown,
                self.next_id == old(self).next_id,
                before == old(self).hobbits@,
                (self.hobbits@, events@) == resolve(before, contacts@.take(k as int)),
            decreases contacts@.len() - k,
        {
            let c = contacts[k];
            proof {
                let t = contacts@.take(k as int + 1);
                assert(t.drop_last() =~= contacts@.take(k as int));
                assert(t.last() == c);
            }
            if let Some(i) = find_hobbit(&self.hobbits, c.hobbit) {
                let hit: Option<(u64, GameEvent)> = match c.kind {
                    ColliderKind::Blade => Some((c.hobbit, GameEvent::AgentDestroyedByHazard(c.hobbit))),
                    ColliderKind::Hobbit => {
                        match find_hobbit(&self.hobbits, c.other) {
                            None => None,
                            Some(j) => {
                                proof {
                                    lemma_index_of_found(self.hobbits@, c.hobbit);
                                    lemma_index_of_found(self.hobbits@, c.other);
                                }
                                if self.hobbits[i].state == self.hobbits[j].state {
                                    None
                                } else {
                                    let seeker = if self.hobbits[i].state == AgentState::Seeking {
                                        c.hobbit
                                    } else {
                                        c.other
                                    };
                                    Some((seeker, GameEvent::AgentLost(seeker)))
                                }
                            },
                        }
                    },
                };
                if let Some((id, ev)) = hit {
                    proof {
                        lemma_index_of_found(self.hobbits@, id);
                        lemma_index_of_found(self.hobbits@, c.hobbit);
                        lemma_index_of_found(self.hobbits@, c.other);
                    }
                    let at = find_hobbit(&self.hobbits, id).unwrap();
                    let ghost prev = self.hobbits@;
                    self.hobbits.remove(at);
                    events.push(ev);
                    proof {
                        assert forall|j: int| 0 <= j < self.hobbits@.len() implies (#[trigger] self.hobbits@[j]).wf()
                            && self.hobbits@[j].id < self.next_id by {
                            if j < at {
                                assert(self.hobbits@[j] == prev[j]);
                            } else {
                                assert(self.hobbits@[j] == prev[j + 1]);
                            }
                        }
                    }
                }
            }
            k = k + 1;
        }
        proof {
            assert(contacts@.take(contacts@.len() as int) =~= contacts@);
        }
        events
    }
}

proof fn lemma_index_of_found(hs: Seq<Hobbit>, id: u64)
    ensures
        -1 <= index_of(hs, id) < hs.len(),
        index_of(hs, id) >= 0 ==> hs[index_of(hs, id)].id == id,
    decreases hs.len(),
{
    if hs.len() > 0 {
        lemma_index_of_found(hs.drop_last(), id);
    }
}

/// The index of the first agent with id `id`, if any.
fn find_hobbit(hs: &Vec<Hobbit>, id: u64) -> (r: Option<usize>)
    ensures
        match r {
            Some(i) => i as int == index_of(hs@, id),
            None => index_of(hs@, id) == -1,
        },
{
    let mut found: Option<usize> = None;
    let mut i: usize = 0;
    while i < hs.len()
        invariant
            i <= hs@.len(),
            match found {
                Some(f) => f as int == index_of(hs@.take(i as int), id) && f < i,
                None => index_of(hs@.take(i as int), id) == -1,
            },
        decreases hs@.len() - i,
    {
        proof {
            let t = hs@.take(i as int + 1);
            assert(t.drop_last() =~= hs@.take(i as int));
        }
        if found.is_none() && hs[i].id == id {
            found = Some(i);
        }
        i = i + 1;
    }
    proof {
        assert(hs@.take(hs@.len() as int) =~= hs@);
    }
    found
}

impl Game {

    /// What to ask the planner for agent `i`: from where it stands to its
    /// destination, avoiding the layer its state forbids, with `delta` as
    /// clearance.
    fn request(&self, i: usize, level: &Level, delta: u64) -> (r: PathRequest)
        requires
            self.wf(),
            i < self.hobbits@.len(),
            level_in_range(*level),
        ensures
            r.from == self.hobbits@[i as int].position,
            ((r.to.x as int, r.to.y as int), r.blocked_layer) == route_of(*level, self.hobbits@[i as int].state),
            r.to.bounded(),
            r.delta == delta,
    {
        let h = &self.hobbits[i];
        let (to, blocked_layer) = route_request(level, h.state);
        PathRequest { from: h.position, to, blocked_layer, delta }
    }

    /// The planner query for agent `i` when it has no path: default
    /// clearance.
    pub fn target_request(&self, i: usize, level: &Level) -> (r: PathRequest)
        requires
            self.wf(),
            i < self.hobbits@.len(),
            level_in_range(*level),
        ensures
            r.from == self.hobbits@[i as int].position,
            ((r.to.x as int, r.to.y as int), r.blocked_layer) == route_of(*level, self.hobbits@[i as int].state),
            r.to.bounded(),
            r.delta == BASE_DELTA,
    {
        self.request(i, level, BASE_DELTA)
    }

    /// The planner query for agent `i` when its path is checked again: the
    /// agent's own clearance.
    pub fn reevaluate_request(&self, i: usize, level: &Level) -> (r: PathRequest)
        requires
            self.wf(),
            i < self.hobbits@.len(),
            level_in_range(*level),
        ensures
            r.from == self.hobbits@[i as int].position,
            ((r.to.x as int, r.to.y as int), r.blocked_layer) == route_of(*level, self.hobbits@[i as int].state),
            r.to.bounded(),
            r.delta == self.hobbits@[i as int].delta,
    {
        self.request(i, level, self.hobbits[i].delta)
    }
}

/// A query for the path planner.
#[derive(Debug, Clone, Copy, PartialEq, Eq, Structural)]
pub struct PathRequest {
    pub from: Point,
    pub to: Point,
    /// The layer the path must not enter.
    pub blocked_layer: u8,
    /// Clearance, in thousandths.
    pub delta: u64,
}

/// A seeking agent is never routed through the portal exit, and a
/// returning one never through the portal entry.
pub proof fn lemma_route_avoids_wrong_portal(l: Level)
    ensures
        route_of(l, AgentState::Seeking).1 == crate::navmesh::PORTAL_OUT_LAYER,
        route_of(l, AgentState::Returning).1 == crate::navmesh::PORTAL_IN_LAYER,
{
}

/// The spawner never creates an agent when the population has reached the
/// cap, nor while the path status stays blocked.
pub proof fn lemma_spawn_gate(
    s: Spawner,
    status: PathStatus,
    level_changed: bool,
    rules: SpawnRules,
    population: int,
    dt: u64,
)
    ensures
        spawn_step(s, status, level_changed, rules, population, dt).2 ==> population < rules.cap,
        population >= rules.cap ==> !spawn_step(s, status, level_changed, rules, population, dt).2,
        status == PathStatus::Blocked && !level_changed ==> !spawn_step(
            s,
            status,
            level_changed,
            rules,
            population,
            dt,
        ).2,
        spawn_step(s, status, level_changed, rules, population, dt).2 ==> spawn_step(
            s,
            status,
            level_changed,
            rules,
            population,
            dt,
        ).1 == PathStatus::Open,
{
}

/// An agent's clearance never shrinks, except when a path is found again,
/// which resets it: steering, moving, arriving, being given a path and
/// ticking the check timer leave it as it is, and a failed check raises it,
/// strictly until it reaches the largest value.
pub proof fn lemma_backoff_only_grows(a: Hobbit, b: Hobbit, path: Option<Vec<Point>>, r: bool, dt: u64, arrival: Arrival)
    ensures
        steer_post(a, b, dt as int) ==> b.delta == a.delta,
        advance_post(a, b, dt as int) ==> b.delta == a.delta,
        arrival_post(a, b, arrival) ==> b.delta == a.delta,
        give_post(a, b, path, r) ==> b.delta == a.delta,
        tick_post(a, b, dt, r) ==> b.delta == a.delta,
        reevaluate_post(a, b, path, r) && path.is_none() ==> b.delta >= a.delta,
        a.wf() && a.delta < u64::MAX && reevaluate_post(a, b, path, r) && path.is_none() ==> b.delta > a.delta,
        reevaluate_post(a, b, path, r) && path.is_some() ==> b.delta == BASE_DELTA,
{
    assert(backed_off(a.delta) >= a.delta);
}

/// A parked agent has no path, so no planner query is made for it: it does
/// not wait for a path, and its check timer never comes due. Only a surface
/// rebuild clears the mark. A failed check parks an agent exactly when its
/// clearance passes the ceiling.
pub proof fn lemma_parked_agent_is_left_alone(a: Hobbit, b: Hobbit, dt: u64, r: bool, path: Option<Vec<Point>>)
    ensures
        a.wf() && a.parked ==> !(a.target.is_none() && !a.parked),
        a.wf() && a.parked && tick_post(a, b, dt, r) ==> !r && b == a,
        a.wf() && a.parked && steer_post(a, b, dt as int) ==> b.parked,
        a.wf() && a.parked && advance_post(a, b, dt as int) ==> b.parked,
        reevaluate_post(a, b, path, r) && path.is_none() ==> (b.parked <==> b.delta > DELTA_CEILING),
{
}


proof fn lemma_index_of_absent(hs: Seq<Hobbit>, id: u64)
    ensures
        index_of(hs, id) == -1 <==> forall|k: int| 0 <= k < hs.len() ==> (#[trigger] hs[k]).id != id,
    decreases hs.len(),
{
    lemma_index_of_found(hs, id);
    if hs.len() > 0 {
        let d = hs.drop_last();
        lemma_index_of_absent(d, id);
        if index_of(hs, id) == -1 {
            assert forall|k: int| 0 <= k < hs.len() implies (#[trigger] hs[k]).id != id by {
                if k < d.len() {
                    assert(d[k] == hs[k]);
                }
            }
        }
    }
}

/// When an agent touches an agent going the other way, and no other
/// contact comes in the same step, exactly one agent is destroyed: the
/// seeking one. The returning one stays, and one `AgentLost` event names
/// the lost agent.
pub proof fn lemma_opposite_contact_loses_seeker(hs: Seq<Hobbit>, c: Contact)
    requires
        ids_increasing(hs),
        c.kind == ColliderKind::Hobbit,
        index_of(hs, c.hobbit) >= 0,
        index_of(hs, c.other) >= 0,
        hs[index_of(hs, c.hobbit)].state != hs[index_of(hs, c.other)].state,
    ensures
        ({
            let seeker = if hs[index_of(hs, c.hobbit)].state == AgentState::Seeking {
                c.hobbit
            } else {
                c.other
            };
            let returner = if seeker == c.hobbit {
                c.other
            } else {
                c.hobbit
            };
            let (left, events) = resolve(hs, seq![c]);
            &&& events == seq![GameEvent::AgentLost(seeker)]
            &&& left.len() == hs.len() - 1
            &&& index_of(left, seeker) == -1
            &&& index_of(left, returner) >= 0
            &&& left[index_of(left, returner)] == hs[index_of(hs, returner)]
        }),
{
    let cs = seq![c];
    assert(cs.drop_last() =~= Seq::<Contact>::empty());
    let i = index_of(hs, c.hobbit);
    let j = index_of(hs, c.other);
    lemma_index_of_found(hs, c.hobbit);
    lemma_index_of_found(hs, c.other);
    assert(i != j);
    let seeker = if hs[i].state == AgentState::Seeking {
        c.hobbit
    } else {
        c.other
    };
    let returner = if seeker == c.hobbit {
        c.other
    } else {
        c.hobbit
    };
    let si = if seeker == c.hobbit {
        i
    } else {
        j
    };
    let ri = if seeker == c.hobbit {
        j
    } else {
        i
    };
    let left = hs.remove(si);
    let ev = GameEvent::AgentLost(seeker);
    assert(cs.last() == c);
    assert(resolve(hs, cs.drop_last()) == (hs, Seq::<GameEvent>::empty()));
    assert(victim(hs, c) == Some((seeker, ev)));
    assert(index_of(hs, seeker) == si);
    assert(Seq::<GameEvent>::empty().push(ev) =~= seq![ev]);
    assert(resolve(hs, cs) == (left, seq![ev]));
    assert forall|k: int| 0 <= k < left.len() implies (#[trigger] left[k]).id != seeker by {
        if k < si {
            assert(left[k] == hs[k]);
        } else {
            assert(left[k] == hs[k + 1]);
        }
    }
    lemma_index_of_absent(left, seeker);
    let rk = if ri < si {
        ri
    } else {
        ri - 1
    };
    assert(left[rk] == hs[ri]);
    lemma_index_of_absent(left, returner);
    lemma_index_of_found(left, returner);
    let li = index_of(left, returner);
    assert(left[li].id == returner);
    assert(li == rk) by {
        if li != rk {
            let a = if li < si { li } else { li + 1 };
            assert(left[li] == hs[a]);
            assert(a != ri);
            if a < ri {
                assert(hs[a].id < hs[ri].id);
            } else {
                assert(hs[ri].id < hs[a].id);
            }
        }
    }
}

} // verus!
