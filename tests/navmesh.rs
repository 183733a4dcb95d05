use there_and_back_again::exclusion::ExclusionSet;
use there_and_back_again::grid::{
    get_neighbours, neighbours_of, Flags, Level, Tile, BOTTOM, BOTTOMRIGHT, CENTER, RIGHT, TOP,
    TOPLEFT,
};
use there_and_back_again::navmesh::{
    contains_cell, corner_delta, fix_indexes, stitch_points, NavError, Quad, NO_POLYGON,
};

fn tiles(rows: &[&str]) -> Vec<Vec<Tile>> {
    rows.iter()
        .map(|r| {
            r.chars()
                .map(|c| match c {
                    'X' => Tile::Start,
                    '#' => Tile::Floor,
                    'v' => Tile::Chest(there_and_back_again::grid::Facing::South),
                    'I' => Tile::In,
                    'O' => Tile::Out,
                    _ => Tile::Empty,
                })
                .collect()
        })
        .collect()
}

fn level(rows: &[&str]) -> Level {
    let floor = tiles(rows);
    let masks = neighbours_of(&floor);
    Level {
        floors: vec![floor],
        neighbours: vec![masks],
        start: (0, 0, 0),
        end: (0, 0, 0),
        nb_hobbits: 3,
        spawn_delay: 2000,
        message: None,
        goal: None,
        treasures: 1,
        losts: None,
        bonus: vec![],
        file: String::from("test.level"),
    }
}

#[test]
fn mask_of_corner_cell() {
    let floor = tiles(&["##", "##"]);
    let f = get_neighbours(&floor, 0, 0);
    assert_eq!(f.bits, CENTER | RIGHT | BOTTOM | BOTTOMRIGHT);
    let g = get_neighbours(&floor, 1, 1);
    assert_eq!(g.bits, CENTER | TOP | TOPLEFT | 0b000001000);
}

#[test]
fn mask_ignores_empty_neighbours() {
    let floor = tiles(&["# ", " #"]);
    let f = get_neighbours(&floor, 1, 1);
    assert_eq!(f.bits, CENTER | TOPLEFT);
    assert!(f.contains(CENTER));
    assert!(!f.contains(TOP));
}

#[test]
fn neighbours_cover_the_grid() {
    let floor = tiles(&["###", "# #"]);
    let m = neighbours_of(&floor);
    assert_eq!(m.len(), 2);
    assert_eq!(m[0].len(), 3);
    assert_eq!(m[1][1].bits & CENTER, 0);
}

#[test]
fn corner_offsets_follow_the_table() {
    assert_eq!(corner_delta(Flags { bits: TOPLEFT | TOP | 0b1000 | CENTER }), Ok((0, 0)));
    assert_eq!(corner_delta(Flags { bits: CENTER }), Ok((1, 1)));
    assert_eq!(corner_delta(Flags { bits: 0 }), Ok((0, 0)));
    assert_eq!(corner_delta(Flags { bits: TOP }), Ok((1, -1)));
    assert_eq!(corner_delta(Flags { bits: TOPLEFT | 0b1000 }), Ok((-1, 0)));
}

#[test]
fn unsupported_patterns_are_errors() {
    assert_eq!(
        corner_delta(Flags { bits: TOPLEFT | CENTER }),
        Err(NavError::DegenerateTopology)
    );
    assert_eq!(
        corner_delta(Flags { bits: TOP | 0b1000 }),
        Err(NavError::DegenerateTopology)
    );
}

#[test]
fn open_floor_surface() {
    let l = level(&["#####", "#####", "#####", "#####", "#####"]);
    let s = l.as_navmesh(vec![]).unwrap();
    assert_eq!(s.floor.polygons.len(), 25);
    assert_eq!(s.floor.vertices.len(), 36);
    assert!(s.portal_in.is_none());
    assert!(s.portal_out.is_none());
    assert_eq!(s.floor.polygons[0], Quad { vertices: [1, 7, 6, 0] });
    assert_eq!((s.floor.vertices[0].x, s.floor.vertices[0].y), (-1, -1));
    assert_eq!(s.floor.vertices[0].polygons, vec![0, NO_POLYGON]);
    // last corner of the lattice
    assert_eq!((s.floor.vertices[35].x, s.floor.vertices[35].y), (17, 17));
    // an inner vertex is shared by four polygons
    assert_eq!(s.floor.vertices[7].polygons.len(), 4);
}

#[test]
fn degenerate_level_is_refused() {
    let l = level(&["# ", " #"]);
    assert_eq!(l.as_navmesh(vec![]), Err(NavError::DegenerateTopology));
    assert_eq!(l.as_navmesh(vec![(0, 0)]), Err(NavError::DegenerateTopology));
}

#[test]
fn build_is_repeatable() {
    let l = level(&["X#v", "###"]);
    let a = l.as_navmesh(vec![(1, 1)]);
    let b = l.as_navmesh(vec![(1, 1)]);
    assert_eq!(a, b);
}

#[test]
fn excluded_cell_loses_its_polygon() {
    let l = level(&["X#v"]);
    let open = l.as_navmesh(vec![]).unwrap();
    assert_eq!(open.floor.polygons.len(), 3);
    let blocked = l.as_navmesh(vec![(1, 0)]).unwrap();
    assert_eq!(blocked.floor.polygons.len(), 2);
    assert_eq!(blocked.floor.polygons[0], Quad { vertices: [1, 5, 4, 0] });
    assert_eq!(blocked.floor.polygons[1], Quad { vertices: [3, 7, 6, 2] });
}

#[test]
fn exclusion_round_trip_restores_surface() {
    let l = level(&["X##", "#I#", "#Ov"]);
    let before = l.as_navmesh(vec![]).unwrap();
    let mut ex = ExclusionSet::new();
    assert!(ex.place(1, 0));
    assert!(ex.place(2, 1));
    assert!(!ex.place(1, 0));
    assert_eq!(ex.len(), 2);
    let during = l.as_navmesh(ex.cells()).unwrap();
    assert_eq!(during.floor.polygons.len(), before.floor.polygons.len() - 2);
    assert!(ex.remove(1, 0));
    assert!(ex.remove(2, 1));
    assert!(!ex.remove(2, 1));
    assert_eq!(ex.len(), 0);
    let after = l.as_navmesh(ex.cells()).unwrap();
    assert_eq!(after, before);
}

#[test]
fn portal_cells_get_their_own_layers() {
    let l = level(&["X#I", "##O"]);
    let s = l.as_navmesh(vec![(2, 0), (2, 1)]).unwrap();
    assert_eq!(s.floor.polygons.len(), 4);
    assert_eq!(s.portal_in.as_ref().unwrap().polygons.len(), 1);
    assert_eq!(s.portal_out.as_ref().unwrap().polygons.len(), 1);
    assert_eq!(s.portal_in.as_ref().unwrap().polygons[0], Quad { vertices: [3, 7, 6, 2] });
}

#[test]
fn contains_cell_finds_pairs() {
    let cells = vec![(1, 2), (3, 4)];
    assert!(contains_cell(&cells, 3, 4));
    assert!(!contains_cell(&cells, 4, 3));
    assert!(!contains_cell(&vec![], 0, 0));
}

#[test]
fn stitch_points_keep_shared_positions() {
    let portal = vec![(1, 1), (2, 2), (3, 3)];
    let floor = vec![(3, 3), (1, 1), (5, 5)];
    assert_eq!(stitch_points(&portal, &floor), vec![(1, 1), (3, 3)]);
    assert_eq!(stitch_points(&portal, &vec![]), vec![]);
}

#[test]
fn fix_indexes_orders_around_vertices() {
    // one cell on a 2x2 lattice
    let vertices = vec![(-1, -1), (1, -1), (-1, 1), (1, 1)];
    let layer = fix_indexes(vec![Quad { vertices: [1, 3, 2, 0] }], &vertices, 2);
    assert_eq!(layer.vertices.len(), 4);
    assert_eq!(layer.vertices[0].polygons, vec![0, NO_POLYGON]);
    assert_eq!(layer.vertices[3].x, 1);
}

#[test]
fn masks_past_four_thousand_cells() {
    let floor = vec![vec![Tile::Floor; 5000]];
    assert_eq!(get_neighbours(&floor, 4999, 0).bits, CENTER | 0b000001000);
    assert_eq!(get_neighbours(&floor, 5000, 0).bits, 0b000001000);
    assert_eq!(get_neighbours(&floor, 6000, 7000).bits, 0);
    assert_eq!(get_neighbours(&floor, 0, 0).bits, CENTER | RIGHT);
}

#[test]
fn level_shape_is_checked() {
    assert!(level(&["X#v", "###"]).is_wf());
    let mut ragged = level(&["X#v", "###"]);
    ragged.floors[0][1].pop();
    assert!(!ragged.is_wf());
    let mut no_masks = level(&["X#v"]);
    no_masks.neighbours = vec![];
    assert!(!no_masks.is_wf());
    assert!(!level(&[]).is_wf());
}

#[test]
fn portal_layers_are_stitched_where_they_meet_the_floor() {
    let l = level(&["X#I", "##O"]);
    let s = l.as_navmesh(vec![]).unwrap();
    assert_eq!(s.portal_stitches(1), Some(vec![(6, -1), (6, 2)]));
    assert_eq!(s.portal_stitches(2), Some(vec![(6, 2), (6, 5)]));
    assert_eq!(s.portal_stitches(0), None);
    let plain = level(&["X#v"]).as_navmesh(vec![]).unwrap();
    assert_eq!(plain.portal_stitches(1), None);
    assert_eq!(plain.portal_stitches(2), None);
}
