use std::collections::HashSet;

use glam::Vec2;
use there_and_back_again::agent::{Arrival, Hobbit};
use there_and_back_again::fixed::{Point, UNIT};
use there_and_back_again::grid::{neighbours_of, Facing, Level, Tile};
use there_and_back_again::navmesh::{NavLayer, PORTAL_OUT_LAYER};

fn open_level() -> Level {
    let mut floor = vec![vec![Tile::Floor; 5]; 5];
    floor[0][0] = Tile::Start;
    floor[4][4] = Tile::Chest(Facing::South);
    let masks = neighbours_of(&floor);
    Level {
        floors: vec![floor],
        neighbours: vec![masks],
        start: (0, 0, 0),
        end: (0, 4, 4),
        nb_hobbits: 1,
        spawn_delay: 1000,
        message: None,
        goal: None,
        treasures: 1,
        losts: None,
        bonus: vec![],
        file: String::new(),
    }
}

fn floor_mesh(layer: &NavLayer) -> polyanya::Mesh {
    let vertices = layer
        .vertices
        .iter()
        .map(|v| polyanya::Vertex::new(Vec2::new(v.x as f32, v.y as f32), v.polygons.clone()))
        .collect();
    let polygons = layer
        .polygons
        .iter()
        .map(|q| polyanya::Polygon::new(q.vertices.to_vec(), false))
        .collect();
    let mut l = polyanya::Layer::new(vertices, polygons).unwrap();
    l.remove_useless_vertices();
    polyanya::Mesh { layers: vec![l], ..Default::default() }
}

#[test]
fn open_grid_plan_and_walk() {
    let level = open_level();
    let surface = level.as_navmesh(vec![]).unwrap();
    let mesh = floor_mesh(&surface.floor);
    let path = mesh
        .path_on_layers(Vec2::new(0.0, 0.0), Vec2::new(16.0, 16.0), HashSet::from([PORTAL_OUT_LAYER]))
        .expect("a path across an open grid");
    assert!(!path.path.is_empty());
    assert_eq!(*path.path.last().unwrap(), Vec2::new(16.0, 16.0));

    let waypoints: Vec<Point> = path
        .path
        .iter()
        .map(|v| Point { x: (v.x * UNIT as f32).round() as i64, y: (v.y * UNIT as f32).round() as i64 })
        .collect();
    let mut h = Hobbit::new(0, Point { x: 0, y: 0 });
    assert!(h.give_target(Some(waypoints)));
    let mut reached = false;
    for _ in 0..1000 {
        h.move_to_target(16);
        h.advance(16);
        if h.reach_target() == Arrival::ReachedGoal {
            reached = true;
            break;
        }
    }
    assert!(reached);
}

#[test]
fn blocked_corridor_has_no_path() {
    let floor = vec![vec![Tile::Start, Tile::Floor, Tile::Chest(Facing::East)]];
    let masks = neighbours_of(&floor);
    let mut level = open_level();
    level.floors = vec![floor];
    level.neighbours = vec![masks];
    let open = level.as_navmesh(vec![]).unwrap();
    let mesh = floor_mesh(&open.floor);
    assert!(mesh.path_on_layers(Vec2::new(0.0, 0.0), Vec2::new(8.0, 0.0), HashSet::new()).is_some());
    let blocked = level.as_navmesh(vec![(1, 0)]).unwrap();
    let mesh = floor_mesh(&blocked.floor);
    assert!(mesh.path_on_layers(Vec2::new(0.0, 0.0), Vec2::new(8.0, 0.0), HashSet::new()).is_none());
}
