//! Agents: their lifecycle state machine, path assignment, steering and
//! arrival.

use vstd::prelude::*;
use crate::fixed::{
    div_trunc, is_root, isqrt, lemma_component_below_length, lemma_scaled_bound, root, trunc_div,
    Point, MAX_POS, UNIT,
};
use crate::grid::Level;
use crate::navmesh::{PORTAL_IN_LAYER, PORTAL_OUT_LAYER};
use crate::timer::{Timer, TimerMode};

verus! {

/// Top speed of an agent, in thousandths of a unit per second.
pub const MAX_SPEED: i64 = 8000;
/// Distance under which a waypoint counts as reached: a tenth of a second at
/// top speed.
pub const WAYPOINT_RADIUS: i64 = 800;
/// Distance under which a seeking agent has reached the goal.
pub const GOAL_RADIUS: i64 = 1000;
/// Distance under which a returning agent is home.
pub const HOME_RADIUS: i64 = 1500;
/// Period at which an agent with a path checks it again, in milliseconds.
pub const REEVALUATE_PERIOD: u64 = 500;
/// Width of one cell, in thousandths of a unit.
pub const CELL_SIZE: i64 = 4000;

/// What an agent is doing.
#[derive(Debug, Clone, Copy, PartialEq, Eq, Structural)]
pub enum AgentState {
    /// On the way from the spawn cell to the goal.
    Seeking,
    /// On the way back from the goal to the spawn cell.
    Returning,
}

/// The path an agent follows: the waypoint it heads for, the ones after it
/// with the next one last, and when to check the path again.
#[derive(Debug, Clone)]
pub struct Target {
    pub next: Point,
    pub path: Vec<Point>,
    pub reevaluate: Timer,
}

/// A live agent.
#[derive(Debug, Clone)]
pub struct Hobbit {
    pub id: u64,
    pub state: AgentState,
    pub position: Point,
    pub velocity: Point,
    /// The direction the agent faces: its last non-zero velocity.
    pub heading: Point,
    pub target: Option<Target>,
    /// Clearance asked of the planner, in thousandths.
    pub delta: u64,
    /// Set once planning failed too often; cleared when the surface is
    /// rebuilt.
    pub parked: bool,
}

/// The centre of the cell at column `col`, row `row`.
pub open spec fn cell_center(col: int, row: int) -> (int, int) {
    (col * CELL_SIZE, row * CELL_SIZE)
}

/// Whether the level's spawn and goal cells have centres in range.
pub open spec fn level_in_range(l: Level) -> bool {
    l.start.1 <= 0x1000_0000 && l.start.2 <= 0x1000_0000 && l.end.1 <= 0x1000_0000 && l.end.2
        <= 0x1000_0000
}

/// Whether the level's spawn and goal cells have centres in range.
pub fn level_in_range_exec(l: &Level) -> (r: bool)
    ensures
        r == level_in_range(*l),
{
    l.start.1 <= 0x1000_0000 && l.start.2 <= 0x1000_0000 && l.end.1 <= 0x1000_0000 && l.end.2
        <= 0x1000_0000
}

/// Where an agent in `state` heads for, and the layer its path must avoid:
/// a seeking agent heads for the goal and never uses the portal exit, a
/// returning one heads home and never uses the portal entry.
pub open spec fn route_of(l: Level, state: AgentState) -> ((int, int), u8) {
    match state {
        AgentState::Seeking => (cell_center(l.end.1 as int, l.end.2 as int), PORTAL_OUT_LAYER),
        AgentState::Returning => (cell_center(l.start.1 as int, l.start.2 as int), PORTAL_IN_LAYER),
    }
}

/// The destination of an agent in `state` and the layer its path must not
/// enter.
pub fn route_request(level: &Level, state: AgentState) -> (r: (Point, u8))
    requires
        level_in_range(*level),
    ensures
        ((r.0.x as int, r.0.y as int), r.1) == route_of(*level, state),
        r.0.bounded(),
{
    match state {
        AgentState::Seeking => (
            Point { x: level.end.1 as i64 * CELL_SIZE, y: level.end.2 as i64 * CELL_SIZE },
            PORTAL_OUT_LAYER,
        ),
        AgentState::Returning => (
            Point { x: level.start.1 as i64 * CELL_SIZE, y: level.start.2 as i64 * CELL_SIZE },
            PORTAL_IN_LAYER,
        ),
    }
}

/// Whether every point of `s` is in range.
pub open spec fn all_bounded(s: Seq<Point>) -> bool {
    forall|i: int| 0 <= i < s.len() ==> (#[trigger] s[i]).bounded()
}

impl Target {
    /// Heads for the first waypoint of a planned path and keeps the others
    /// as a stack, the second waypoint on top.
    pub fn new(path: Vec<Point>) -> (r: Target)
        requires
            path@.len() > 0,
        ensures
            r.next == path@[0],
            r.path@ == path@.subrange(1, path@.len() as int).reverse(),
            r.reevaluate == (Timer { duration: REEVALUATE_PERIOD, elapsed: 0, mode: TimerMode::Repeating }),
    {
        let next = path[0];
        let mut rest: Vec<Point> = Vec::new();
        let mut i: usize = path.len();
        while i > 1
            invariant
                1 <= i <= path@.len(),
                rest@ == path@.subrange(i as int, path@.len() as int).reverse(),
            decreases i,
        {
            i = i - 1;
            rest.push(path[i]);
            proof {
                assert(rest@ =~= path@.subrange(i as int, path@.len() as int).reverse());
            }
        }
        Target {
            next,
            path: rest,
            reevaluate: Timer::from_millis(REEVALUATE_PERIOD, TimerMode::Repeating),
        }
    }

    pub open spec fn wf(&self) -> bool {
        &&& self.next.bounded()
        &&& all_bounded(self.path@)
        &&& self.reevaluate.wf()
    }
}

/// `v` scaled to length `num` over its rounded-down length `den`.
pub open spec fn scaled(v: (int, int), num: int, den: int) -> (int, int) {
    (trunc_div(v.0 * num, den), trunc_div(v.1 * num, den))
}

/// The rounded-down length of `v`.
pub open spec fn length(v: (int, int)) -> int {
    root((v.0 * v.0 + v.1 * v.1) as nat) as int
}

/// The velocity an agent wants: toward `dir` at top speed, or none when it
/// stands on the waypoint.
pub open spec fn desired_velocity(dir: (int, int)) -> (int, int) {
    if length(dir) == 0 {
        (0, 0)
    } else {
        scaled(dir, MAX_SPEED as int, length(dir))
    }
}

/// Velocity `v` moved toward `d` in proportion to `dt` milliseconds.
pub open spec fn low_pass(v: (int, int), d: (int, int), dt: int) -> (int, int) {
    (v.0 + trunc_div((d.0 - v.0) * dt, 1000), v.1 + trunc_div((d.1 - v.1) * dt, 1000))
}

/// `v` brought back to top speed when faster.
pub open spec fn clamp_speed(v: (int, int)) -> (int, int) {
    if length(v) > MAX_SPEED {
        scaled(v, MAX_SPEED as int, length(v))
    } else {
        v
    }
}

/// `v` slowed by a tenth when heading for the last waypoint faster than the
/// distance left to it.
pub open spec fn damp(v: (int, int), last: bool, distance: int) -> (int, int) {
    if last && length(v) > distance {
        (trunc_div(v.0 * 9, 10), trunc_div(v.1 * 9, 10))
    } else {
        v
    }
}

/// The velocity after one steering step of `dt` milliseconds toward `next`.
pub open spec fn steered(pos: Point, vel: Point, next: Point, last: bool, dt: int) -> (int, int) {
    let dir = (next.x - pos.x, next.y - pos.y);
    let v = clamp_speed(low_pass((vel.x as int, vel.y as int), desired_velocity(dir), dt));
    damp(v, last, length(dir))
}

/// The position after moving at `vel` for `dt` milliseconds.
pub open spec fn moved(pos: Point, vel: Point, dt: int) -> (int, int) {
    (pos.x + trunc_div(vel.x * dt, 1000), pos.y + trunc_div(vel.y * dt, 1000))
}

/// The squared distance between two points.
pub open spec fn dist2(a: Point, b: Point) -> int {
    (a.x - b.x) * (a.x - b.x) + (a.y - b.y) * (a.y - b.y)
}

/// What happened to an agent when checking its arrival.
#[derive(Debug, Clone, Copy, PartialEq, Eq, Structural)]
pub enum Arrival {
    /// Nothing changed.
    Underway,
    /// It took the next waypoint off its path.
    NextWaypoint,
    /// It reached the goal and turned back.
    ReachedGoal,
    /// It came home with its load and leaves the arena.
    Delivered,
}

fn length_of(x: i128, y: i128) -> (r: i128)
    requires
        -0x1000_0000_0000_0000 <= x <= 0x1000_0000_0000_0000,
        -0x1000_0000_0000_0000 <= y <= 0x1000_0000_0000_0000,
    ensures
        r == length((x as int, y as int)),
        0 <= r <= 0x2000_0000_0000_0000,
        -r <= x <= r,
        -r <= y <= r,
{
    assert(x * x <= 0x100_0000_0000_0000_0000_0000_0000_0000) by (nonlinear_arith)
        requires
            -0x1000_0000_0000_0000 <= x <= 0x1000_0000_0000_0000,
    ;
    assert(y * y <= 0x100_0000_0000_0000_0000_0000_0000_0000) by (nonlinear_arith)
        requires
            -0x1000_0000_0000_0000 <= y <= 0x1000_0000_0000_0000,
    ;
    assert(x * x >= 0 && y * y >= 0) by (nonlinear_arith);
    let n: u128 = (x * x + y * y) as u128;
    let s = isqrt(n);
    proof {
        lemma_component_below_length(x as int, y as int, s as nat);
        lemma_component_below_length(y as int, x as int, s as nat);
        assert(s * s <= n);
        assert(s <= 0x2000_0000_0000_0000) by (nonlinear_arith)
            requires
                s * s <= n,
                n <= 0x200_0000_0000_0000_0000_0000_0000_0000,
                s >= 0,
        ;
    }
    s as i128
}

/// One steering step of `dt` milliseconds took `a` to `b`: only the
/// velocity and heading change, and only for an agent with a path.
pub open spec fn steer_post(a: Hobbit, b: Hobbit, dt: int) -> bool {
    &&& b.id == a.id
    &&& b.state == a.state
    &&& b.position == a.position
    &&& b.target == a.target
    &&& b.delta == a.delta
    &&& b.parked == a.parked
    &&& match a.target {
        None => b.velocity == a.velocity && b.heading == a.heading,
        Some(t) => {
            &&& (b.velocity.x as int, b.velocity.y as int) == steered(
                a.position,
                a.velocity,
                t.next,
                t.path@.len() == 0,
                dt,
            )
            &&& b.heading == if b.velocity == (Point { x: 0, y: 0 }) {
                a.heading
            } else {
                b.velocity
            }
        },
    }
}

/// Whether moving `a` for `dt` milliseconds keeps it in range.
pub open spec fn can_advance(a: Hobbit, dt: int) -> bool {
    &&& -MAX_POS <= moved(a.position, a.velocity, dt).0 <= MAX_POS
    &&& -MAX_POS <= moved(a.position, a.velocity, dt).1 <= MAX_POS
}

/// Moving for `dt` milliseconds took `a` to `b`: only the position changes.
pub open spec fn advance_post(a: Hobbit, b: Hobbit, dt: int) -> bool {
    &&& (b.position.x as int, b.position.y as int) == moved(a.position, a.velocity, dt)
    &&& b == Hobbit { position: b.position, ..a }
}

/// Checking arrival took `a` to `b` with outcome `r`.
pub open spec fn arrival_post(a: Hobbit, b: Hobbit, r: Arrival) -> bool {
    &&& b.id == a.id
    &&& b.position == a.position
    &&& b.velocity == a.velocity
    &&& b.heading == a.heading
    &&& b.delta == a.delta
    &&& b.parked == a.parked
    &&& match a.target {
        None => r == Arrival::Underway && b == a,
        Some(t) => if t.path@.len() == 0 {
            if a.state == AgentState::Returning && dist2(a.position, t.next) < HOME_RADIUS * HOME_RADIUS {
                r == Arrival::Delivered && b == a
            } else if a.state == AgentState::Seeking && dist2(a.position, t.next) < GOAL_RADIUS
                * GOAL_RADIUS {
                &&& r == Arrival::ReachedGoal
                &&& b.state == AgentState::Returning
                &&& b.target.is_none()
            } else {
                r == Arrival::Underway && b == a
            }
        } else if dist2(a.position, t.next) < WAYPOINT_RADIUS * WAYPOINT_RADIUS {
            &&& r == Arrival::NextWaypoint
            &&& b.state == a.state
            &&& b.target matches Some(nt)
            &&& nt.next == t.path@.last()
            &&& nt.path@ == t.path@.drop_last()
            &&& nt.reevaluate == t.reevaluate
        } else {
            r == Arrival::Underway && b == a
        },
    }
}

impl Hobbit {
    /// A new agent standing still at `position`, seeking, with no path.
    pub open spec fn new_spec(id: u64, position: (int, int)) -> Hobbit {
        Hobbit {
            id,
            state: AgentState::Seeking,
            position: Point { x: position.0 as i64, y: position.1 as i64 },
            velocity: Point { x: 0, y: 0 },
            heading: Point { x: 0, y: 1 },
            target: None,
            delta: crate::replan::BASE_DELTA,
            parked: false,
        }
    }
}

impl Hobbit {
    /// A new agent standing still at `position`, seeking, with no path.
    pub fn new(id: u64, position: Point) -> (r: Hobbit)
        requires
            position.bounded(),
        ensures
            r == Hobbit::new_spec(id, (position.x as int, position.y as int)),
            r.id == id,
            r.state == AgentState::Seeking,
            r.position == position,
            r.velocity == (Point { x: 0, y: 0 }),
            r.heading == (Point { x: 0, y: 1 }),
            r.target.is_none(),
            r.delta == crate::replan::BASE_DELTA,
            !r.parked,
            r.wf(),
    {
        Hobbit {
            id,
            state: AgentState::Seeking,
            position,
            velocity: Point { x: 0, y: 0 },
            heading: Point { x: 0, y: 1 },
            target: None,
            delta: crate::replan::BASE_DELTA,
            parked: false,
        }
    }

    /// Positions in range, speed within top speed on each axis, a
    /// clearance of at least the base value, and a well-formed path.
    pub open spec fn wf(&self) -> bool {
        &&& self.position.bounded()
        &&& self.delta >= crate::replan::BASE_DELTA
        &&& -MAX_SPEED <= self.velocity.x <= MAX_SPEED
        &&& -MAX_SPEED <= self.velocity.y <= MAX_SPEED
        &&& match self.target {
            Some(t) => t.wf(),
            None => true,
        }
        &&& self.parked ==> self.target.is_none()
    }

    /// One steering step of `dt` milliseconds: the velocity turns toward the
    /// next waypoint at top speed, is held to top speed, and is damped near
    /// the last waypoint; the heading follows any non-zero velocity. An agent
    /// with no path is left as it is.
    pub fn move_to_target(&mut self, dt: u32)
        requires
            old(self).wf(),
        ensures
            final(self).wf(),
            steer_post(*old(self), *final(self), dt as int),
    {
        let (next, last) = match &self.target {
            Some(t) => (t.next, t.path.len() == 0),
            None => {
                return ;
            },
        };
        let dx = next.x as i128 - self.position.x as i128;
        let dy = next.y as i128 - self.position.y as i128;
        let dist = length_of(dx, dy);
        let (wx, wy): (i128, i128) = if dist == 0 {
            (0, 0)
        } else {
            proof {
                lemma_scaled_bound(dx as int, MAX_SPEED as int, dist as int);
                lemma_scaled_bound(dy as int, MAX_SPEED as int, dist as int);
                assert(-0x1000_0000_0000_0000_0000 <= dx * 8000 <= 0x1000_0000_0000_0000_0000) by (nonlinear_arith)
                    requires
                        -0x1000_0000_0000 <= dx <= 0x1000_0000_0000,
                ;
                assert(-0x1000_0000_0000_0000_0000 <= dy * 8000 <= 0x1000_0000_0000_0000_0000) by (nonlinear_arith)
                    requires
                        -0x1000_0000_0000 <= dy <= 0x1000_0000_0000,
                ;
            }
            (div_trunc(dx * 8000, dist), div_trunc(dy * 8000, dist))
        };
        let vx = self.velocity.x as i128;
        let vy = self.velocity.y as i128;
        let t = dt as i128;
        assert(-16000 * 0x1_0000_0000 <= (wx - vx) * t <= 16000 * 0x1_0000_0000) by (nonlinear_arith)
            requires
                -16000 <= wx - vx <= 16000,
                0 <= t <= 0x1_0000_0000,
        ;
        assert(-16000 * 0x1_0000_0000 <= (wy - vy) * t <= 16000 * 0x1_0000_0000) by (nonlinear_arith)
            requires
                -16000 <= wy - vy <= 16000,
                0 <= t <= 0x1_0000_0000,
        ;
        let mut nx = vx + div_trunc((wx - vx) * t, 1000);
        let mut ny = vy + div_trunc((wy - vy) * t, 1000);
        proof {
            vstd::arithmetic::div_mod::lemma_div_is_ordered(0int, 0x3e80_0000_0000int, 1000);
            if (wx - vx) * t >= 0 {
                vstd::arithmetic::div_mod::lemma_div_is_ordered((wx - vx) * t, 0x3e80_0000_0000int, 1000);
                vstd::arithmetic::div_mod::lemma_div_pos_is_pos((wx - vx) * t, 1000);
            } else {
                vstd::arithmetic::div_mod::lemma_div_is_ordered(-((wx - vx) * t), 0x3e80_0000_0000int, 1000);
                vstd::arithmetic::div_mod::lemma_div_pos_is_pos(-((wx - vx) * t), 1000);
            }
            if (wy - vy) * t >= 0 {
                vstd::arithmetic::div_mod::lemma_div_is_ordered((wy - vy) * t, 0x3e80_0000_0000int, 1000);
                vstd::arithmetic::div_mod::lemma_div_pos_is_pos((wy - vy) * t, 1000);
            } else {
                vstd::arithmetic::div_mod::lemma_div_is_ordered(-((wy - vy) * t), 0x3e80_0000_0000int, 1000);
                vstd::arithmetic::div_mod::lemma_div_pos_is_pos(-((wy - vy) * t), 1000);
            }
        }
        let ghost lp = (nx as int, ny as int);
        let speed = length_of(nx, ny);
        if speed > 8000 {
            proof {
                lemma_scaled_bound(nx as int, MAX_SPEED as int, speed as int);
                lemma_scaled_bound(ny as int, MAX_SPEED as int, speed as int);
            }
            assert(-0x1000_0000_0000_0000_0000 <= nx * 8000 <= 0x1000_0000_0000_0000_0000) by (nonlinear_arith)
                requires
                    -0x1000_0000_0000 <= nx <= 0x1000_0000_0000,
            ;
            assert(-0x1000_0000_0000_0000_0000 <= ny * 8000 <= 0x1000_0000_0000_0000_0000) by (nonlinear_arith)
                requires
                    -0x1000_0000_0000 <= ny <= 0x1000_0000_0000,
            ;
            nx = div_trunc(nx * 8000, speed);
            ny = div_trunc(ny * 8000, speed);
        }
        let ghost cl = (nx as int, ny as int);
        assert(cl == clamp_speed(lp));
        assert(-8000 <= nx <= 8000 && -8000 <= ny <= 8000);
        let speed_now = length_of(nx, ny);
        if last && speed_now > dist {
            assert(-8000 <= trunc_div(nx * 9, 10) <= 8000) by {
                if nx >= 0 {
                    vstd::arithmetic::div_mod::lemma_div_is_ordered(nx * 9, 72000int, 10);
                    vstd::arithmetic::div_mod::lemma_div_pos_is_pos(nx * 9, 10);
                } else {
                    vstd::arithmetic::div_mod::lemma_div_is_ordered(-(nx * 9), 72000int, 10);
                    vstd::arithmetic::div_mod::lemma_div_pos_is_pos(-(nx * 9), 10);
                }
            }
            assert(-8000 <= trunc_div(ny * 9, 10) <= 8000) by {
                if ny >= 0 {
                    vstd::arithmetic::div_mod::lemma_div_is_ordered(ny * 9, 72000int, 10);
                    vstd::arithmetic::div_mod::lemma_div_pos_is_pos(ny * 9, 10);
                } else {
                    vstd::arithmetic::div_mod::lemma_div_is_ordered(-(ny * 9), 72000int, 10);
                    vstd::arithmetic::div_mod::lemma_div_pos_is_pos(-(ny * 9), 10);
                }
            }
            nx = div_trunc(nx * 9, 10);
            ny = div_trunc(ny * 9, 10);
        }
        self.velocity = Point { x: nx as i64, y: ny as i64 };
        if nx != 0 || ny != 0 {
            self.heading = self.velocity;
        }
    }

    /// Moves the agent at its velocity for `dt` milliseconds, as the physics
    /// engine would.
    pub fn advance(&mut self, dt: u32)
        requires
            old(self).wf(),
            can_advance(*old(self), dt as int),
        ensures
            final(self).wf(),
            advance_post(*old(self), *final(self), dt as int),
    {
        let t = dt as i128;
        let vx = self.velocity.x as i128;
        let vy = self.velocity.y as i128;
        assert(-8000 * 0x1_0000_0000 <= vx * t <= 8000 * 0x1_0000_0000) by (nonlinear_arith)
            requires
                -8000 <= vx <= 8000,
                0 <= t <= 0x1_0000_0000,
        ;
        assert(-8000 * 0x1_0000_0000 <= vy * t <= 8000 * 0x1_0000_0000) by (nonlinear_arith)
            requires
                -8000 <= vy <= 8000,
                0 <= t <= 0x1_0000_0000,
        ;
        let mx = div_trunc(vx * t, 1000);
        let my = div_trunc(vy * t, 1000);
        self.position = Point {
            x: (self.position.x as i128 + mx) as i64,
            y: (self.position.y as i128 + my) as i64,
        };
    }

    /// Checks whether the agent reached its waypoint. With waypoints left,
    /// one within `WAYPOINT_RADIUS` is replaced by the next. On the last
    /// one, a seeking agent within `GOAL_RADIUS` turns back and drops its
    /// path, and a returning agent within `HOME_RADIUS` is delivered.
    pub fn reach_target(&mut self) -> (r: Arrival)
        requires
            old(self).wf(),
        ensures
            final(self).wf(),
            arrival_post(*old(self), *final(self), r),
    {
        let (next, last) = match &self.target {
            Some(t) => (t.next, t.path.len() == 0),
            None => {
                return Arrival::Underway;
            },
        };
        let dx = self.position.x as i128 - next.x as i128;
        let dy = self.position.y as i128 - next.y as i128;
        assert(0 <= dx * dx <= 0x100_0000_0000_0000_0000_0000) by (nonlinear_arith)
            requires
                -0x1000_0000_0000 <= dx <= 0x1000_0000_0000,
        ;
        assert(0 <= dy * dy <= 0x100_0000_0000_0000_0000_0000) by (nonlinear_arith)
            requires
                -0x1000_0000_0000 <= dy <= 0x1000_0000_0000,
        ;
        let d2 = dx * dx + dy * dy;
        assert(d2 == dist2(self.position, next));
        if last {
            if self.state == AgentState::Returning && d2 < 1500 * 1500 {
                return Arrival::Delivered;
            }
            if self.state == AgentState::Seeking && d2 < 1000 * 1000 {
                self.state = AgentState::Returning;
                self.target = None;
                return Arrival::ReachedGoal;
            }
            Arrival::Underway
        } else if d2 < 800 * 800 {
            let t = self.target.take().unwrap();
            let mut path = t.path;
            let n = path.pop().unwrap();
            proof {
                assert(all_bounded(path@)) by {
                    assert forall|i: int| 0 <= i < path@.len() implies (#[trigger] path@[i]).bounded() by {
                        assert(path@[i] == t.path@[i]);
                    }
                }
            }
            self.target = Some(Target { next: n, path, reevaluate: t.reevaluate });
            Arrival::NextWaypoint
        } else {
            Arrival::Underway
        }
    }
}

} // verus!
