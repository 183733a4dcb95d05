use there_and_back_again::agent::{AgentState, Arrival, Hobbit};
use there_and_back_again::exclusion::ExclusionSet;
use there_and_back_again::fixed::Point;
use there_and_back_again::game::{ColliderKind, Contact, Game, GameEvent};
use there_and_back_again::grid::{neighbours_of, Facing, Level, Tile};
use there_and_back_again::navmesh::PORTAL_OUT_LAYER;
use there_and_back_again::replan::BASE_DELTA;
use there_and_back_again::spawner::{PathStatus, SpawnRules, Spawner};

fn p(x: i64, y: i64) -> Point {
    Point { x, y }
}

fn corridor(message: bool) -> Level {
    let floor = vec![vec![Tile::Start, Tile::Floor, Tile::Chest(Facing::East)]];
    let masks = neighbours_of(&floor);
    Level {
        floors: vec![floor],
        neighbours: vec![masks],
        start: (0, 0, 0),
        end: (0, 2, 0),
        nb_hobbits: 2,
        spawn_delay: 3000,
        message: if message { Some(String::from("hello")) } else { None },
        goal: None,
        treasures: 1,
        losts: None,
        bonus: vec![],
        file: String::new(),
    }
}

#[test]
fn first_spawn_waits_the_initial_delay() {
    let l = corridor(false);
    let mut g = Game::new();
    assert_eq!(g.spawn_hobbits(&l, true, 16), None);
    assert_eq!(g.spawner.timer.unwrap().duration, 1500);
    assert_eq!(g.spawn_hobbits(&l, false, 1499), None);
    assert_eq!(g.spawn_hobbits(&l, false, 1), Some(0));
    assert_eq!(g.hobbits.len(), 1);
    assert_eq!(g.hobbits[0].position, p(0, 0));
    assert_eq!(g.hobbits[0].state, AgentState::Seeking);
    // the next one waits the level's delay
    assert_eq!(g.spawn_hobbits(&l, false, 16), None);
    assert_eq!(g.spawner.timer.unwrap().duration, 3000);
}

#[test]
fn first_spawn_waits_longer_after_a_message() {
    let l = corridor(true);
    let mut g = Game::new();
    assert_eq!(g.spawn_hobbits(&l, true, 16), None);
    assert_eq!(g.spawner.timer.unwrap().duration, 7500);
}

#[test]
fn spawner_stops_at_the_cap() {
    let rules = SpawnRules { cap: 1, delay: 100, has_message: false };
    let mut s = Spawner::new();
    let mut status = PathStatus::Open;
    assert!(!s.spawn_hobbits(&mut status, false, rules, 1, 1000));
    assert!(s.timer.is_none());
    assert!(!s.spawn_hobbits(&mut status, false, rules, 0, 10));
    assert!(s.timer.is_some());
    // the population reached the cap while the timer ran
    assert!(!s.spawn_hobbits(&mut status, false, rules, 1, 1000));
}

#[test]
fn blocked_level_stops_spawning() {
    let rules = SpawnRules { cap: 5, delay: 100, has_message: false };
    let mut s = Spawner::new();
    let mut status = PathStatus::Blocked;
    for _ in 0..10 {
        assert!(!s.spawn_hobbits(&mut status, false, rules, 0, 1000));
    }
    assert!(s.timer.is_none());
    // a level change opens the status again
    assert!(!s.spawn_hobbits(&mut status, true, rules, 0, 1000));
    assert_eq!(status, PathStatus::Open);
    assert!(s.timer.is_some());
}

#[test]
fn obstacle_in_corridor_blocks_paths() {
    let l = corridor(false);
    let mut ex = ExclusionSet::new();
    ex.place(1, 0);
    let surface = l.as_navmesh(ex.cells()).unwrap();
    assert_eq!(surface.floor.polygons.len(), 2);
    let mut g = Game::new();
    g.spawn_hobbits(&l, true, 16);
    assert_eq!(g.spawn_hobbits(&l, false, 1500), Some(0));
    assert_eq!(g.hobbits_needing_path(), vec![0]);
    let req = g.target_request(0, &l);
    assert_eq!(req.to, p(8000, 0));
    assert_eq!(req.blocked_layer, PORTAL_OUT_LAYER);
    assert_eq!(req.delta, BASE_DELTA);
    // the planner finds no path on the split surface
    assert!(!g.give_target(0, None));
    assert_eq!(g.path_status, PathStatus::Blocked);
    assert!(!g.give_target_ready(100));
    for _ in 0..20 {
        assert_eq!(g.spawn_hobbits(&l, false, 1000), None);
    }
    assert_eq!(g.hobbits.len(), 1);
}

#[test]
fn removing_obstacle_reopens_paths() {
    let l = corridor(false);
    let mut ex = ExclusionSet::new();
    ex.place(1, 0);
    let blocked = l.as_navmesh(ex.cells()).unwrap();
    ex.remove(1, 0);
    let open = l.as_navmesh(ex.cells()).unwrap();
    assert_eq!(open.floor.polygons.len(), 3);
    assert_ne!(open, blocked);
    let mut g = Game::new();
    g.spawn_hobbits(&l, true, 16);
    g.spawn_hobbits(&l, false, 1500);
    assert!(!g.give_target(0, None));
    assert_eq!(g.path_status, PathStatus::Blocked);
    g.surface_rebuilt();
    assert!(!g.give_target_ready(400));
    assert!(g.give_target_ready(100));
    assert!(g.give_target(0, Some(vec![p(4000, 0), p(8000, 0)])));
    assert_eq!(g.path_status, PathStatus::Open);
    assert!(g.hobbits_needing_path().is_empty());
}

fn two_agents() -> Game {
    let l = corridor(false);
    let mut g = Game::new();
    g.spawn_hobbits(&l, true, 16);
    g.spawn_hobbits(&l, false, 1500);
    g.spawn_hobbits(&l, false, 16);
    g.spawn_hobbits(&l, false, 3000);
    assert_eq!(g.hobbits.len(), 2);
    g.hobbits[1].state = AgentState::Returning;
    g
}

#[test]
fn opposite_agents_collide_and_seeker_is_lost() {
    let mut g = two_agents();
    let contacts = vec![Contact { hobbit: 1, other: 0, kind: ColliderKind::Hobbit }];
    let events = g.colliding_hobbits(&contacts);
    assert_eq!(events, vec![GameEvent::AgentLost(0)]);
    assert_eq!(g.hobbits.len(), 1);
    assert_eq!(g.hobbits[0].id, 1);
}

#[test]
fn both_sides_of_a_contact_lose_one_agent() {
    let mut g = two_agents();
    let contacts = vec![
        Contact { hobbit: 0, other: 1, kind: ColliderKind::Hobbit },
        Contact { hobbit: 1, other: 0, kind: ColliderKind::Hobbit },
    ];
    let events = g.colliding_hobbits(&contacts);
    assert_eq!(events, vec![GameEvent::AgentLost(0)]);
    assert_eq!(g.hobbits.len(), 1);
}

#[test]
fn same_direction_agents_pass() {
    let mut g = two_agents();
    g.hobbits[1].state = AgentState::Seeking;
    let events = g.colliding_hobbits(&vec![Contact { hobbit: 0, other: 1, kind: ColliderKind::Hobbit }]);
    assert!(events.is_empty());
    assert_eq!(g.hobbits.len(), 2);
}

#[test]
fn hazard_destroys_agent() {
    let mut g = two_agents();
    let events = g.colliding_hobbits(&vec![Contact { hobbit: 1, other: 0, kind: ColliderKind::Blade }]);
    assert_eq!(events, vec![GameEvent::AgentDestroyedByHazard(1)]);
    assert_eq!(g.hobbits.len(), 1);
    assert_eq!(g.hobbits[0].id, 0);
    let none = g.colliding_hobbits(&vec![Contact { hobbit: 9, other: 0, kind: ColliderKind::Blade }]);
    assert!(none.is_empty());
}

#[test]
fn parked_agent_resumes_after_rebuild() {
    let l = corridor(false);
    let mut g = Game::new();
    g.spawn_hobbits(&l, true, 16);
    g.spawn_hobbits(&l, false, 1500);
    assert!(g.give_target(0, Some(vec![p(4000, 0), p(8000, 0)])));
    let mut deltas = vec![];
    for _ in 0..5 {
        assert!(g.reevaluate_ready(250));
        let req = g.reevaluate_request(0, &l);
        deltas.push(req.delta);
        assert!(!g.reevaluate_path(0, None));
    }
    assert_eq!(deltas, vec![100, 300, 900, 2700, 8100]);
    assert_eq!(g.hobbits[0].delta, 24300);
    assert!(g.hobbits[0].parked);
    assert_eq!(g.hobbits.len(), 1);
    assert!(g.hobbits_needing_path().is_empty());
    assert!(!g.tick_reevaluate(0, 10_000));
    g.surface_rebuilt();
    assert_eq!(g.hobbits_needing_path(), vec![0]);
    assert!(g.give_target(0, Some(vec![p(8000, 0)])));
}

#[test]
fn arrivals_are_settled() {
    let mut g = two_agents();
    assert!(g.give_target(0, Some(vec![p(100, 0)])));
    assert!(g.give_target(1, Some(vec![p(0, 100)])));
    let arrivals = g.reach_target();
    assert_eq!(arrivals, vec![Arrival::ReachedGoal, Arrival::Delivered]);
    let events = g.settle_arrivals(&arrivals);
    assert_eq!(events, vec![GameEvent::ReachedGoal(0), GameEvent::Delivered(1)]);
    assert_eq!(g.hobbits.len(), 1);
    assert_eq!(g.hobbits[0].state, AgentState::Returning);
    assert_eq!(g.hobbits_needing_path(), vec![0]);
    let req = g.target_request(0, &corridor(false));
    assert_eq!(req.to, p(0, 0));
}

#[test]
fn whole_tick_moves_every_agent() {
    let mut g = two_agents();
    assert!(g.give_target(0, Some(vec![p(8000, 0)])));
    g.move_to_target(500);
    g.advance(500);
    assert_eq!(g.hobbits[0].velocity, p(4000, 0));
    assert_eq!(g.hobbits[0].position, p(2000, 0));
    assert_eq!(g.hobbits[1].velocity, p(0, 0));
    let fresh = Hobbit::new(5, p(0, 0));
    assert_eq!(fresh.delta, BASE_DELTA);
}

#[test]
fn rebuild_unparks_agents_and_builds_the_surface() {
    let l = corridor(false);
    let mut g = Game::new();
    g.spawn_hobbits(&l, true, 16);
    g.spawn_hobbits(&l, false, 1500);
    assert!(g.give_target(0, Some(vec![p(8000, 0)])));
    for _ in 0..5 {
        g.reevaluate_path(0, None);
    }
    assert!(g.hobbits[0].parked);
    let mut ex = ExclusionSet::new();
    ex.place(1, 0);
    let surface = g.rebuild(&l, &ex).unwrap();
    assert_eq!(Ok(surface), l.as_navmesh(vec![(1, 0)]));
    assert!(!g.hobbits[0].parked);
    assert_eq!(g.hobbits_needing_path(), vec![0]);
}
