use there_and_back_again::agent::{route_request, AgentState, Arrival, Hobbit, Target, MAX_SPEED};
use there_and_back_again::fixed::{div_trunc, isqrt, Point};
use there_and_back_again::grid::{Level, Tile};
use there_and_back_again::navmesh::{PORTAL_IN_LAYER, PORTAL_OUT_LAYER};
use there_and_back_again::replan::{BASE_DELTA, DELTA_CEILING};
use there_and_back_again::timer::{Timer, TimerMode};

fn p(x: i64, y: i64) -> Point {
    Point { x, y }
}

fn plain_level() -> Level {
    Level {
        floors: vec![vec![vec![Tile::Floor; 5]; 5]],
        neighbours: vec![],
        start: (0, 1, 2),
        end: (0, 4, 3),
        nb_hobbits: 2,
        spawn_delay: 3000,
        message: None,
        goal: None,
        treasures: 1,
        losts: None,
        bonus: vec![],
        file: String::new(),
    }
}

#[test]
fn isqrt_rounds_down() {
    assert_eq!(isqrt(0), 0);
    assert_eq!(isqrt(1), 1);
    assert_eq!(isqrt(24), 4);
    assert_eq!(isqrt(25), 5);
    assert_eq!(isqrt(26), 5);
    assert_eq!(isqrt(u128::MAX), u64::MAX);
}

#[test]
fn division_rounds_toward_zero() {
    assert_eq!(div_trunc(7, 2), 3);
    assert_eq!(div_trunc(-7, 2), -3);
    assert_eq!(div_trunc(0, 5), 0);
}

#[test]
fn timers_once_and_repeating() {
    let mut t = Timer::from_millis(100, TimerMode::Once);
    assert!(!t.tick(60));
    assert!(t.tick(60));
    assert_eq!(t.elapsed, 100);
    assert!(!t.tick(60));
    let mut r = Timer::from_millis(100, TimerMode::Repeating);
    assert!(!r.tick(90));
    assert!(r.tick(30));
    assert_eq!(r.elapsed, 20);
    r.reset();
    assert_eq!(r.elapsed, 0);
}

#[test]
fn routes_avoid_the_wrong_portal() {
    let l = plain_level();
    let (to, layer) = route_request(&l, AgentState::Seeking);
    assert_eq!(to, p(16000, 12000));
    assert_eq!(layer, PORTAL_OUT_LAYER);
    let (home, layer) = route_request(&l, AgentState::Returning);
    assert_eq!(home, p(4000, 8000));
    assert_eq!(layer, PORTAL_IN_LAYER);
}

#[test]
fn target_keeps_remaining_waypoints_as_stack() {
    let t = Target::new(vec![p(1, 1), p(2, 2), p(3, 3), p(4, 4)]);
    assert_eq!(t.next, p(1, 1));
    assert_eq!(t.path, vec![p(4, 4), p(3, 3), p(2, 2)]);
    assert_eq!(t.reevaluate.duration, 500);
    let single = Target::new(vec![p(5, 5)]);
    assert_eq!(single.next, p(5, 5));
    assert!(single.path.is_empty());
}

#[test]
fn steering_exact_step() {
    let mut h = Hobbit::new(1, p(0, 0));
    assert!(h.give_target(Some(vec![p(3000, 4000)])));
    h.move_to_target(1000);
    // desired (4800, 6400), reached in one second, then damped near the end
    assert_eq!(h.velocity, p(4320, 5760));
    assert_eq!(h.heading, p(4320, 5760));
}

#[test]
fn steering_is_proportional_to_time() {
    let mut h = Hobbit::new(1, p(0, 0));
    assert!(h.give_target(Some(vec![p(100000, 0), p(200000, 0)])));
    h.move_to_target(100);
    assert_eq!(h.velocity, p(800, 0));
    h.move_to_target(500);
    assert_eq!(h.velocity, p(4400, 0));
}

#[test]
fn steering_holds_top_speed() {
    let mut h = Hobbit::new(1, p(0, 0));
    h.velocity = p(8000, 8000);
    assert!(h.give_target(Some(vec![p(100000, 100000), p(200000, 200000)])));
    h.move_to_target(10);
    let speed2 = h.velocity.x * h.velocity.x + h.velocity.y * h.velocity.y;
    assert!(speed2 <= MAX_SPEED * MAX_SPEED);
    assert_eq!(h.velocity, p(5656, 5656));
}

#[test]
fn agent_without_path_keeps_still() {
    let mut h = Hobbit::new(1, p(0, 0));
    h.move_to_target(16);
    assert_eq!(h.velocity, p(0, 0));
    assert_eq!(h.heading, p(0, 1));
    assert_eq!(h.reach_target(), Arrival::Underway);
}

#[test]
fn advance_moves_at_velocity() {
    let mut h = Hobbit::new(1, p(0, 0));
    h.velocity = p(8000, -4000);
    h.advance(250);
    assert_eq!(h.position, p(2000, -1000));
}

#[test]
fn steering_reaches_goal_in_bounded_ticks() {
    let mut h = Hobbit::new(7, p(0, 0));
    assert!(h.give_target(Some(vec![p(4000, 4000), p(12000, 12000), p(16000, 16000)])));
    let mut ticks = 0;
    let mut reached = false;
    while ticks < 1000 {
        h.move_to_target(16);
        h.advance(16);
        if h.reach_target() == Arrival::ReachedGoal {
            reached = true;
            break;
        }
        ticks += 1;
    }
    assert!(reached);
    let dx = h.position.x - 16000;
    let dy = h.position.y - 16000;
    assert!(dx * dx + dy * dy < 1000 * 1000);
    assert_eq!(h.state, AgentState::Returning);
    assert!(h.target.is_none());
}

#[test]
fn waypoint_is_popped_when_close() {
    let mut h = Hobbit::new(1, p(0, 0));
    assert!(h.give_target(Some(vec![p(500, 0), p(9000, 0), p(20000, 0)])));
    assert_eq!(h.reach_target(), Arrival::NextWaypoint);
    assert_eq!(h.target.as_ref().unwrap().next, p(9000, 0));
    assert_eq!(h.target.as_ref().unwrap().path, vec![p(20000, 0)]);
    assert_eq!(h.reach_target(), Arrival::Underway);
}

#[test]
fn returning_agent_is_delivered_home() {
    let mut h = Hobbit::new(1, p(0, 0));
    h.state = AgentState::Returning;
    assert!(h.give_target(Some(vec![p(1400, 0)])));
    assert_eq!(h.reach_target(), Arrival::Delivered);
    let mut far = Hobbit::new(2, p(0, 0));
    far.state = AgentState::Returning;
    assert!(far.give_target(Some(vec![p(1500, 0)])));
    assert_eq!(far.reach_target(), Arrival::Underway);
}

#[test]
fn seeking_agent_needs_to_be_close_to_turn_back() {
    let mut h = Hobbit::new(1, p(0, 0));
    assert!(h.give_target(Some(vec![p(1200, 0)])));
    assert_eq!(h.reach_target(), Arrival::Underway);
    assert_eq!(h.state, AgentState::Seeking);
}

#[test]
fn backoff_parks_after_fifth_failure() {
    let mut h = Hobbit::new(3, p(0, 0));
    assert!(h.give_target(Some(vec![p(4000, 0)])));
    let expected = [300, 900, 2700, 8100];
    for d in expected {
        assert!(!h.reevaluate_path(None));
        assert_eq!(h.delta, d);
        assert!(!h.parked);
        assert!(h.target.is_some());
    }
    assert!(!h.reevaluate_path(None));
    assert_eq!(h.delta, 24300);
    assert!(h.delta > DELTA_CEILING);
    assert!(h.parked);
    assert!(h.target.is_none());
    assert!(!h.needs_path());
    assert!(!h.tick_reevaluate(10_000));
    h.unpark();
    assert!(h.needs_path());
}

#[test]
fn success_resets_clearance() {
    let mut h = Hobbit::new(3, p(0, 0));
    assert!(h.give_target(Some(vec![p(4000, 0)])));
    assert!(!h.reevaluate_path(None));
    assert_eq!(h.delta, 300);
    assert!(h.reevaluate_path(Some(vec![p(1, 1), p(2, 2)])));
    assert_eq!(h.delta, BASE_DELTA);
    assert_eq!(h.target.as_ref().unwrap().next, p(1, 1));
}

#[test]
fn check_timer_comes_due_every_half_second() {
    let mut h = Hobbit::new(3, p(0, 0));
    assert!(!h.tick_reevaluate(1000));
    assert!(h.give_target(Some(vec![p(4000, 0)])));
    assert!(!h.tick_reevaluate(400));
    assert!(h.tick_reevaluate(100));
    assert!(!h.tick_reevaluate(499));
    assert!(h.tick_reevaluate(1));
}
