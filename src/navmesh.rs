//! Building the navigation surface of a level.
//!
//! Every cell owns the vertex at its top-left corner, shifted by up to one
//! unit so that polygon boundaries hug the walls. Vertices are laid out on a
//! `(cols + 1) x (rows + 1)` lattice: vertex `x + (cols + 1) * y` belongs to
//! the corner at column `x`, row `y`. One cell is four units wide, and the
//! centre of cell `(x, y)` lies at `(4x, 4y)`.

use vstd::prelude::*;
use vstd::arithmetic::div_mod::lemma_fundamental_div_mod_converse;
use crate::grid::{lemma_level_size, Flags, Level, Tile, CENTER, LEFT, TOP, TOPLEFT, MAX_LATTICE};

verus! {

/// Why a navigation surface could not be built.
#[derive(Debug, Clone, Copy, PartialEq, Eq, Structural)]
pub enum NavError {
    /// A cell's neighbourhood is one that the corner offsets cannot represent:
    /// a level must be designed without it.
    DegenerateTopology,
}

/// The shift of a cell's top-left vertex, from the top-left, top, left and
/// centre bits of its mask; `None` for the two patterns it cannot represent.
pub open spec fn corner_offset(mask: u32) -> Option<(int, int)> {
    let tl = mask & TOPLEFT == TOPLEFT;
    let t = mask & TOP == TOP;
    let l = mask & LEFT == LEFT;
    let c = mask & CENTER == CENTER;
    match (tl, t, l, c) {
        (true, true, true, true) => Some((0, 0)),
        (true, true, true, false) => Some((-1, -1)),
        (true, true, false, true) => Some((1, -1)),
        (true, true, false, false) => Some((0, -1)),
        (true, false, true, true) => Some((-1, 1)),
        (true, false, true, false) => Some((-1, 0)),
        (true, false, false, true) => None,
        (true, false, false, false) => Some((-1, -1)),
        (false, true, true, true) => Some((1, 1)),
        (false, true, true, false) => None,
        (false, true, false, true) => Some((1, 0)),
        (false, true, false, false) => Some((1, -1)),
        (false, false, true, true) => Some((0, 1)),
        (false, false, true, false) => Some((-1, 1)),
        (false, false, false, true) => Some((1, 1)),
        (false, false, false, false) => Some((0, 0)),
    }
}

/// The horizontal shift of a vertex on the bottom edge, from the mask of the
/// cell above it.
pub open spec fn bottom_offset(mask: u32) -> int {
    (if mask & CENTER != CENTER {
        -1int
    } else {
        0int
    }) + (if mask & LEFT != LEFT && mask & CENTER == CENTER {
        1int
    } else {
        0int
    })
}

/// Whether the corner offsets can represent every cell of the level.
pub open spec fn representable(l: Level) -> bool {
    forall|y: int, x: int|
        0 <= y < l.rows() && 0 <= x < l.cols() ==> (#[trigger] corner_offset(l.masks()[y][x])).is_some()
}

/// The position of the vertex at column `x`, row `y` of the lattice.
pub open spec fn vertex_at(l: Level, x: int, y: int) -> (int, int) {
    if y < l.rows() && x < l.cols() {
        let d = corner_offset(l.masks()[y][x]).unwrap();
        (4 * x - 2 + d.0, 4 * y - 2 + d.1)
    } else if y < l.rows() {
        (4 * l.cols() - 3, 4 * y - 2 + if y == 0 {
            1int
        } else {
            0int
        })
    } else if x < l.cols() {
        (4 * x - 2 + bottom_offset(l.masks()[l.rows() - 1][x]), 4 * l.rows() - 3)
    } else {
        (4 * l.cols() - 3, 4 * l.rows() - 3)
    }
}

/// The number of lattice columns.
pub open spec fn lattice_width(l: Level) -> int {
    l.cols() + 1
}

/// The positions of all vertices of the lattice, by vertex index.
pub open spec fn lattice(l: Level) -> Seq<(int, int)> {
    let w = lattice_width(l);
    Seq::new(((l.rows() + 1) * w) as nat, |k: int| vertex_at(l, k % w, k / w))
}

/// The shift of the top-left vertex of a cell with occupancy mask `flag`.
pub fn corner_delta(flag: Flags) -> (r: Result<(i64, i64), NavError>)
    ensures
        match r {
            Ok(d) => corner_offset(flag.bits) == Some((d.0 as int, d.1 as int)),
            Err(e) => corner_offset(flag.bits).is_none() && e == NavError::DegenerateTopology,
        },
{
    match (flag.contains(TOPLEFT), flag.contains(TOP), flag.contains(LEFT), flag.contains(CENTER)) {
        (true, true, true, true) => Ok((0, 0)),
        (true, true, true, false) => Ok((-1, -1)),
        (true, true, false, true) => Ok((1, -1)),
        (true, true, false, false) => Ok((0, -1)),
        (true, false, true, true) => Ok((-1, 1)),
        (true, false, true, false) => Ok((-1, 0)),
        (true, false, false, true) => Err(NavError::DegenerateTopology),
        (true, false, false, false) => Ok((-1, -1)),
        (false, true, true, true) => Ok((1, 1)),
        (false, true, true, false) => Err(NavError::DegenerateTopology),
        (false, true, false, true) => Ok((1, 0)),
        (false, true, false, false) => Ok((1, -1)),
        (false, false, true, true) => Ok((0, 1)),
        (false, false, true, false) => Ok((-1, 1)),
        (false, false, false, true) => Ok((1, 1)),
        (false, false, false, false) => Ok((0, 0)),
    }
}

proof fn lemma_lattice_index(k: int, w: int, x: int, y: int)
    requires
        w > 0,
        0 <= x < w,
        k == x + w * y,
    ensures
        k % w == x,
        k / w == y,
{
    assert(k == y * w + x) by (nonlinear_arith)
        requires
            k == x + w * y,
    ;
    lemma_fundamental_div_mod_converse(k, w, y, x);
}

impl Level {
    /// The mask of the cell at column `x`, row `y` of floor 0.
    fn mask_at(&self, x: usize, y: usize) -> (r: Flags)
        requires
            self.wf(),
            x < self.cols(),
            y < self.rows(),
        ensures
            r.bits == self.masks()[y as int][x as int],
    {
        let row = &self.neighbours[0][y];
        assert(self.masks()[y as int] == row@.map(|_j, f: Flags| f.bits));
        row[x]
    }

    /// The positions of the lattice's vertices, by vertex index; fails when
    /// some cell's mask is one that the corner offsets cannot represent.
    pub fn corner_vertices(&self) -> (r: Result<Vec<(i64, i64)>, NavError>)
        requires
            self.wf(),
        ensures
            match r {
                Ok(v) => representable(*self) && coords_view(v@) == lattice(*self),
                Err(e) => !representable(*self) && e == NavError::DegenerateTopology,
            },
    {
        let rows = self.floors[0].len();
        let cols = self.floors[0][0].len();
        proof {
            lemma_level_size(*self);
            assert(self.grid()[0] == self.floors@[0]@[0]@);
        }
        let w = cols + 1;
        let ghost l = *self;
        let ghost target = lattice(l);
        let mut v: Vec<(i64, i64)> = Vec::new();
        let mut y: usize = 0;
        while y <= rows
            invariant
                rows == l.rows(),
                rows < 0xffff_ffff,
                cols < 0xffff_ffff,
                cols == l.cols(),
                w == cols + 1,
                l == *self,
                self.wf(),
                target == lattice(l),
                target.len() == (rows + 1) * w,
                y <= rows + 1,
                v@.len() == w * y,
                forall|yy: int, xx: int|
                    0 <= yy < y && 0 <= yy < rows && 0 <= xx < cols ==> (#[trigger] corner_offset(
                        l.masks()[yy][xx],
                    )).is_some(),
                forall|k: int|
                    0 <= k < v@.len() ==> (#[trigger] v@[k]).0 == target[k].0 && v@[k].1
                        == target[k].1,
            decreases rows + 1 - y,
        {
            let mut x: usize = 0;
            while x <= cols
                invariant
                    rows == l.rows(),
                    rows < 0xffff_ffff,
                    cols < 0xffff_ffff,
                rows < 0xffff_ffff,
                cols < 0xffff_ffff,
                    cols == l.cols(),
                    w == cols + 1,
                    l == *self,
                    self.wf(),
                    target == lattice(l),
                    target.len() == (rows + 1) * w,
                    y <= rows,
                    x <= cols + 1,
                    v@.len() == w * y + x,
                    forall|yy: int, xx: int|
                        0 <= yy < y && 0 <= yy < rows && 0 <= xx < cols ==> (
                        #[trigger] corner_offset(l.masks()[yy][xx])).is_some(),
                    forall|xx: int|
                        0 <= xx < x && xx < cols && y < rows ==> (#[trigger] corner_offset(
                            l.masks()[y as int][xx],
                        )).is_some(),
                    forall|k: int|
                        0 <= k < v@.len() ==> (#[trigger] v@[k]).0 == target[k].0 && v@[k].1
                            == target[k].1,
                decreases cols + 1 - x,
            {
                let p: (i64, i64) = if y < rows && x < cols {
                    let d = corner_delta(self.mask_at(x, y))?;
                    (x as i64 * 4 - 2 + d.0, y as i64 * 4 - 2 + d.1)
                } else if y < rows {
                    (cols as i64 * 4 - 3, y as i64 * 4 - 2 + if y == 0 {
                        1
                    } else {
                        0
                    })
                } else if x < cols {
                    let flag = self.mask_at(x, rows - 1);
                    let mut dx: i64 = 0;
                    if !flag.contains(CENTER) {
                        dx = dx - 1;
                    }
                    if !flag.contains(LEFT) && flag.contains(CENTER) {
                        dx = dx + 1;
                    }
                    (x as i64 * 4 - 2 + dx, rows as i64 * 4 - 3)
                } else {
                    (cols as i64 * 4 - 3, rows as i64 * 4 - 3)
                };
                proof {
                    let k = w * y + x;
                    lemma_lattice_index(k, w as int, x as int, y as int);
                    assert((rows + 1) * w >= w * y + x + 1) by (nonlinear_arith)
                        requires
                            y <= rows,
                            x < w,
                    ;
                    assert(target[k] == vertex_at(l, x as int, y as int));
                }
                v.push(p);
                proof {
                    assert(v@.len() == w * y + x + 1) by (nonlinear_arith)
                        requires
                            v@.len() == w * y + x + 1,
                    ;
                }
                x = x + 1;
            }
            proof {
                assert(w * y + w == w * (y + 1)) by (nonlinear_arith);
            }
            y = y + 1;
        }
        proof {
            assert(w * y == (rows + 1) * w) by (nonlinear_arith)
                requires
                    y == rows + 1,
            ;
            assert(v@.len() == target.len());
            assert(coords_view(v@) =~= target);
        }
        Ok(v)
    }
}

/// The layer of the main floor.
pub const FLOOR_LAYER: u8 = 0;
/// The layer of the cells that lead into a portal.
pub const PORTAL_IN_LAYER: u8 = 1;
/// The layer of the cells that lead out of a portal.
pub const PORTAL_OUT_LAYER: u8 = 2;

/// A quadrilateral polygon, by the indices of its four vertices.
#[derive(Debug, Clone, Copy, PartialEq, Eq)]
pub struct Quad {
    pub vertices: [u32; 4],
}

impl View for Quad {
    type V = Seq<int>;

    open spec fn view(&self) -> Seq<int> {
        self.vertices@.map(|_i, v: u32| v as int)
    }
}

/// The layer that a cell's polygon goes to, if it gets one: portal cells go to
/// their portal layer, other non-empty cells to the floor unless excluded.
pub open spec fn cell_layer(t: Tile, excluded: bool) -> Option<u8> {
    match t {
        Tile::In => Some(PORTAL_IN_LAYER),
        Tile::Out => Some(PORTAL_OUT_LAYER),
        Tile::Empty => None,
        _ => if excluded {
            None
        } else {
            Some(FLOOR_LAYER)
        },
    }
}

/// The polygon of the cell at column `x`, row `y`, on a lattice `w` wide,
/// wound from its top-right corner.
pub open spec fn quad_of(w: int, x: int, y: int) -> Seq<int> {
    seq![x + 1 + w * y, x + 1 + w * (y + 1), x + w * (y + 1), x + w * y]
}

/// The polygons of `layer` from the first `n` cells, in row-major order.
pub open spec fn quads_upto(l: Level, removed: Seq<(usize, usize)>, layer: u8, n: nat) -> Seq<Seq<int>>
    decreases n,
{
    if n == 0 {
        seq![]
    } else {
        let c = n - 1;
        let x = c % l.cols();
        let y = c / l.cols();
        let prev = quads_upto(l, removed, layer, (n - 1) as nat);
        if cell_layer(l.grid()[y][x], removed.contains((x as usize, y as usize))) == Some(layer) {
            prev.push(quad_of(lattice_width(l), x, y))
        } else {
            prev
        }
    }
}

/// The polygons of `layer` for the level with the cells of `removed` excluded.
pub open spec fn layer_quads(l: Level, removed: Seq<(usize, usize)>, layer: u8) -> Seq<Seq<int>> {
    quads_upto(l, removed, layer, (l.rows() * l.cols()) as nat)
}

/// Whether `cells` holds the cell at column `x`, row `y`.
pub fn contains_cell(cells: &Vec<(usize, usize)>, x: usize, y: usize) -> (r: bool)
    ensures
        r == cells@.contains((x, y)),
{
    let mut i: usize = 0;
    while i < cells.len()
        invariant
            i <= cells@.len(),
            forall|j: int| 0 <= j < i ==> cells@[j] != (x, y),
        decreases cells@.len() - i,
    {
        let c = cells[i];
        if c.0 == x && c.1 == y {
            assert(cells@[i as int] == (x, y));
            return true;
        }
        i = i + 1;
    }
    false
}

impl Level {
    fn tile_at(&self, x: usize, y: usize) -> (r: Tile)
        requires
            self.wf(),
            x < self.cols(),
            y < self.rows(),
        ensures
            r == self.grid()[y as int][x as int],
    {
        let row = &self.floors[0][y];
        assert(self.grid()[y as int] == row@);
        row[x]
    }

    /// The polygons of `layer`, cell by cell in row-major order, with the
    /// cells of `removed_cells` left out of the floor.
    pub fn layer_polygons(&self, removed_cells: &Vec<(usize, usize)>, layer: u8) -> (r: Vec<Quad>)
        requires
            self.wf(),
        ensures
            r@.map(|_i, q: Quad| q@) == layer_quads(*self, removed_cells@, layer),
    {
        let rows = self.floors[0].len();
        let cols = self.floors[0][0].len();
        proof {
            lemma_level_size(*self);
            assert(self.grid()[0] == self.floors@[0]@[0]@);
        }
        let w = cols + 1;
        let ghost l = *self;
        let mut out: Vec<Quad> = Vec::new();
        let mut y: usize = 0;
        while y < rows
            invariant
                rows == l.rows(),
                cols == l.cols(),
                w == cols + 1,
                l == *self,
                self.wf(),
                y <= rows,
                out@.map(|_i, q: Quad| q@) == quads_upto(l, removed_cells@, layer, (cols * y) as nat),
            decreases rows - y,
        {
            let mut x: usize = 0;
            while x < cols
                invariant
                    rows == l.rows(),
                    cols == l.cols(),
                    w == cols + 1,
                    l == *self,
                    self.wf(),
                    y < rows,
                    x <= cols,
                    out@.map(|_i, q: Quad| q@) == quads_upto(
                        l,
                        removed_cells@,
                        layer,
                        (cols * y + x) as nat,
                    ),
                decreases cols - x,
            {
                let ghost n = cols * y + x;
                proof {
                    lemma_lattice_index(n, cols as int, x as int, y as int);
                    assert(n + 1 <= cols * rows) by (nonlinear_arith)
                        requires
                            n == cols * y + x,
                            x < cols,
                            y < rows,
                    ;
                    assert(w * (y + 1) + x + 1 <= w * (rows + 1)) by (nonlinear_arith)
                        requires
                            x < cols,
                            y < rows,
                            w == cols + 1,
                    ;
                    assert(w * (rows + 1) <= MAX_LATTICE) by (nonlinear_arith)
                        requires
                            (rows + 1) * w <= MAX_LATTICE,
                    ;
                    assert(w * y <= w * (y + 1)) by (nonlinear_arith);
                }
                let t = self.tile_at(x, y);
                let excluded = contains_cell(removed_cells, x, y);
                let cell: Option<u8> = match t {
                    Tile::In => Some(PORTAL_IN_LAYER),
                    Tile::Out => Some(PORTAL_OUT_LAYER),
                    Tile::Empty => None,
                    _ => if excluded {
                        None
                    } else {
                        Some(FLOOR_LAYER)
                    },
                };
                if cell == Some(layer) {
                    let q = Quad {
                        vertices: [
                            (x + 1 + w * y) as u32,
                            (x + 1 + w * (y + 1)) as u32,
                            (x + w * (y + 1)) as u32,
                            (x + w * y) as u32,
                        ],
                    };
                    proof {
                        assert(q@ =~= quad_of(w as int, x as int, y as int));
                    }
                    out.push(q);
                }
                proof {
                    assert(out@.map(|_i, q: Quad| q@) =~= quads_upto(
                        l,
                        removed_cells@,
                        layer,
                        (n + 1) as nat,
                    ));
                }
                x = x + 1;
            }
            proof {
                assert(cols * y + cols == cols * (y + 1)) by (nonlinear_arith);
            }
            y = y + 1;
        }
        proof {
            assert(cols * rows == rows * cols) by (nonlinear_arith);
        }
        out
    }
}

/// The index that stands for "no polygon" in a vertex's polygon list.
pub const NO_POLYGON: u32 = 0xffff_ffff;

/// Where vertex `k` of a lattice `w` wide would stand with no shift.
pub open spec fn lattice_point(k: int, w: int) -> (int, int) {
    (4 * (k % w) - 2, 4 * (k / w) - 2)
}

/// Whether point `r` lies in `quadrant` around the unshifted lattice point
/// `t`: 0 is right and above, 1 right and below, 2 left and below, 3 left and
/// above, each with one unit of slack.
pub open spec fn in_quadrant(quadrant: int, r: (int, int), t: (int, int)) -> bool {
    if quadrant == 0 {
        r.0 > t.0 + 1 && r.1 < t.1 - 1
    } else if quadrant == 1 {
        r.0 > t.0 + 1 && r.1 >= t.1 - 1
    } else if quadrant == 2 {
        r.0 <= t.0 + 1 && r.1 >= t.1 - 1
    } else {
        r.0 <= t.0 + 1 && r.1 < t.1 - 1
    }
}

/// Whether quad `q` has vertex `k`.
pub open spec fn touches(q: Seq<int>, k: int) -> bool {
    q[0] == k || q[1] == k || q[2] == k || q[3] == k
}

/// Whether polygon `p` of `quads` has vertex `k` and its first vertex lies in
/// `quadrant` around vertex `k`.
pub open spec fn picks(quads: Seq<Seq<int>>, coords: Seq<(int, int)>, w: int, k: int, quadrant: int, p: int) -> bool {
    touches(quads[p], k) && in_quadrant(quadrant, coords[quads[p][0]], lattice_point(k, w))
}

/// The first of the first `n` polygons that `picks` selects, or `NO_POLYGON`.
pub open spec fn first_pick(quads: Seq<Seq<int>>, coords: Seq<(int, int)>, w: int, k: int, quadrant: int, n: nat) -> int
    decreases n,
{
    if n == 0 {
        NO_POLYGON as int
    } else {
        let prev = first_pick(quads, coords, w, k, quadrant, (n - 1) as nat);
        if prev != NO_POLYGON as int {
            prev
        } else if picks(quads, coords, w, k, quadrant, n - 1) {
            n - 1
        } else {
            NO_POLYGON as int
        }
    }
}

/// `s` with each run of equal neighbours reduced to one element.
pub open spec fn dedup(s: Seq<u32>) -> Seq<u32>
    decreases s.len(),
{
    if s.len() <= 1 {
        s
    } else {
        let d = dedup(s.drop_last());
        if s.last() == s[s.len() - 2] {
            d
        } else {
            d.push(s.last())
        }
    }
}

/// `s` with its first element moved to the end.
pub open spec fn rotate_left_one(s: Seq<u32>) -> Seq<u32> {
    if s.len() == 0 {
        s
    } else {
        s.subrange(1, s.len() as int).push(s[0])
    }
}

/// The polygons around vertex `k`, counter-clockwise from the top right, with
/// `NO_POLYGON` for a side with none and repeats removed.
pub open spec fn vertex_polygons(quads: Seq<Seq<int>>, coords: Seq<(int, int)>, w: int, k: int) -> Seq<u32> {
    let raw = Seq::new(4, |q: int| first_pick(quads, coords, w, k, q, quads.len()) as u32);
    dedup(rotate_left_one(dedup(raw)))
}

/// A vertex of a finished layer: its position and the polygons around it.
#[derive(Debug, Clone, PartialEq, Eq)]
pub struct NavVertex {
    pub x: i64,
    pub y: i64,
    pub polygons: Vec<u32>,
}

/// One layer of a navigation surface.
#[derive(Debug, Clone, PartialEq, Eq)]
pub struct NavLayer {
    pub vertices: Vec<NavVertex>,
    pub polygons: Vec<Quad>,
}

/// What a layer holds: the positions of its vertices, the polygons around
/// each vertex, and its polygons.
pub ghost struct LayerView {
    pub positions: Seq<(int, int)>,
    pub around: Seq<Seq<u32>>,
    pub polygons: Seq<Seq<int>>,
}

impl View for NavLayer {
    type V = LayerView;

    open spec fn view(&self) -> LayerView {
        LayerView {
            positions: self.vertices@.map(|_i, v: NavVertex| (v.x as int, v.y as int)),
            around: self.vertices@.map(|_i, v: NavVertex| v.polygons@),
            polygons: self.polygons@.map(|_i, q: Quad| q@),
        }
    }
}

/// The layer made of `quads` over the vertices at `coords` of a lattice `w`
/// wide.
pub open spec fn layer_of(quads: Seq<Seq<int>>, coords: Seq<(int, int)>, w: int) -> LayerView {
    LayerView {
        positions: coords,
        around: Seq::new(coords.len(), |k: int| vertex_polygons(quads, coords, w, k)),
        polygons: quads,
    }
}

/// Whether every vertex index of every quad is below `n`.
pub open spec fn quads_within(quads: Seq<Seq<int>>, n: int) -> bool {
    forall|p: int, i: int| 0 <= p < quads.len() && 0 <= i < 4 ==> 0 <= #[trigger] quads[p][i] < n
}

/// Positions as mathematical integers.
pub open spec fn coords_view(v: Seq<(i64, i64)>) -> Seq<(int, int)> {
    v.map(|_k, p: (i64, i64)| (p.0 as int, p.1 as int))
}

/// Largest magnitude of a vertex coordinate.
pub const MAX_COORD: i64 = 0x100_0000_0000;

/// Whether every position lies within `MAX_COORD` of the origin on each axis.
pub open spec fn coords_bounded(v: Seq<(i64, i64)>) -> bool {
    forall|k: int| 0 <= k < v.len() ==> -MAX_COORD <= (#[trigger] v[k]).0 <= MAX_COORD && -MAX_COORD <= v[k].1 <= MAX_COORD
}

fn first_in_quadrant(quads: &Vec<Quad>, coords: &Vec<(i64, i64)>, w: usize, k: usize, quadrant: u8) -> (r: u32)
    requires
        0 < w <= 0xffff_ffff,
        k < coords@.len() <= 0xffff_ffff,
        quads@.len() < NO_POLYGON,
        quads_within(quads@.map(|_i, q: Quad| q@), coords@.len() as int),
        coords_bounded(coords@),
        quadrant < 4,
    ensures
        r as int == first_pick(
            quads@.map(|_i, q: Quad| q@),
            coords_view(coords@),
            w as int,
            k as int,
            quadrant as int,
            quads@.len(),
        ),
{
    let ghost qs = quads@.map(|_i, q: Quad| q@);
    let ghost cs = coords_view(coords@);
    let tx: i64 = 4 * ((k % w) as i64) - 2;
    let ty: i64 = 4 * ((k / w) as i64) - 2;
    proof {
        assert(lattice_point(k as int, w as int) == (tx as int, ty as int));
    }
    let mut found: u32 = NO_POLYGON;
    let mut p: usize = 0;
    while p < quads.len()
        invariant
            p <= quads@.len() < NO_POLYGON,
            qs == quads@.map(|_i, q: Quad| q@),
            cs == coords_view(coords@),
            quads_within(qs, coords@.len() as int),
            coords_bounded(coords@),
            lattice_point(k as int, w as int) == (tx as int, ty as int),
            -0x10_0000_0000 <= tx <= 0x10_0000_0000,
            -0x10_0000_0000 <= ty <= 0x10_0000_0000,
            k < coords@.len() <= 0xffff_ffff,
            found as int == first_pick(qs, cs, w as int, k as int, quadrant as int, p as nat),
        decreases quads@.len() - p,
    {
        let q = quads[p];
        let kk = k as u32;
        proof {
            assert(kk as int == k);
            assert(qs[p as int] == q@);
            assert(q@[0] == q.vertices@[0] as int);
            assert(q@[1] == q.vertices@[1] as int);
            assert(q@[2] == q.vertices@[2] as int);
            assert(q@[3] == q.vertices@[3] as int);
            assert(0 <= qs[p as int][0] < coords@.len());
        }
        if found == NO_POLYGON {
            let touching = q.vertices[0] == kk || q.vertices[1] == kk || q.vertices[2] == kk
                || q.vertices[3] == kk;
            let r = coords[q.vertices[0] as usize];
            let inside = if quadrant == 0 {
                r.0 > tx + 1 && r.1 < ty - 1
            } else if quadrant == 1 {
                r.0 > tx + 1 && r.1 >= ty - 1
            } else if quadrant == 2 {
                r.0 <= tx + 1 && r.1 >= ty - 1
            } else {
                r.0 <= tx + 1 && r.1 < ty - 1
            };
            proof {
                assert(cs[q@[0]] == (r.0 as int, r.1 as int));
            }
            if touching && inside {
                found = p as u32;
            }
        }
        p = p + 1;
    }
    found
}

fn dedup_ids(s: &Vec<u32>) -> (r: Vec<u32>)
    ensures
        r@ == dedup(s@),
{
    let mut out: Vec<u32> = Vec::new();
    let mut i: usize = 0;
    while i < s.len()
        invariant
            i <= s@.len(),
            out@ == dedup(s@.take(i as int)),
        decreases s@.len() - i,
    {
        proof {
            let t = s@.take(i as int + 1);
            assert(t.drop_last() =~= s@.take(i as int));
        }
        if i == 0 || s[i] != s[i - 1] {
            out.push(s[i]);
        }
        proof {
            let t = s@.take(i as int + 1);
            if i == 0 {
                assert(t =~= seq![s@[0]]);
                assert(out@ =~= t);
            }
        }
        i = i + 1;
    }
    proof {
        assert(s@.take(s@.len() as int) =~= s@);
    }
    out
}

fn rotate_ids(s: &Vec<u32>) -> (r: Vec<u32>)
    ensures
        r@ == rotate_left_one(s@),
{
    let mut out: Vec<u32> = Vec::new();
    if s.len() == 0 {
        proof {
            assert(out@ =~= s@);
        }
        return out;
    }
    let mut i: usize = 1;
    while i < s.len()
        invariant
            1 <= i <= s@.len(),
            out@ == s@.subrange(1, i as int),
        decreases s@.len() - i,
    {
        out.push(s[i]);
        proof {
            assert(out@ =~= s@.subrange(1, i as int + 1));
        }
        i = i + 1;
    }
    out.push(s[0]);
    out
}

/// Builds a layer from its polygons and the vertex positions of the lattice,
/// listing around each vertex its polygons counter-clockwise.
pub fn fix_indexes(polygons: Vec<Quad>, vertices: &Vec<(i64, i64)>, width: u32) -> (r: NavLayer)
    requires
        0 < width,
        vertices@.len() <= 0xffff_ffff,
        polygons@.len() < NO_POLYGON,
        quads_within(polygons@.map(|_i, q: Quad| q@), vertices@.len() as int),
        coords_bounded(vertices@),
    ensures
        r@ == layer_of(polygons@.map(|_i, q: Quad| q@), coords_view(vertices@), width as int),
{
    let ghost qs = polygons@.map(|_i, q: Quad| q@);
    let ghost cs = coords_view(vertices@);
    let w = width as usize;
    let mut out: Vec<NavVertex> = Vec::new();
    let mut k: usize = 0;
    while k < vertices.len()
        invariant
            k <= vertices@.len() <= 0xffff_ffff,
            w == width,
            0 < w <= 0xffff_ffff,
            polygons@.len() < NO_POLYGON,
            qs == polygons@.map(|_i, q: Quad| q@),
            cs == coords_view(vertices@),
            quads_within(qs, vertices@.len() as int),
            coords_bounded(vertices@),
            out@.len() == k,
            forall|j: int|
                0 <= j < k ==> (#[trigger] out@[j]).x as int == cs[j].0 && out@[j].y as int == cs[j].1
                    && out@[j].polygons@ == vertex_polygons(qs, cs, w as int, j),
        decreases vertices@.len() - k,
    {
        let raw = vec![
            first_in_quadrant(&polygons, vertices, w, k, 0),
            first_in_quadrant(&polygons, vertices, w, k, 1),
            first_in_quadrant(&polygons, vertices, w, k, 2),
            first_in_quadrant(&polygons, vertices, w, k, 3),
        ];
        proof {
            let expected = Seq::new(4, |q: int| first_pick(qs, cs, w as int, k as int, q, qs.len()) as u32);
            assert(raw@ =~= expected);
        }
        let once = dedup_ids(&raw);
        let turned = rotate_ids(&once);
        let around = dedup_ids(&turned);
        let p = vertices[k];
        out.push(NavVertex { x: p.0, y: p.1, polygons: around });
        k = k + 1;
    }
    let r = NavLayer { vertices: out, polygons };
    proof {
        let e = layer_of(qs, cs, w as int);
        assert(r@.positions =~= e.positions);
        assert(r@.around =~= e.around);
    }
    r
}

/// A navigation surface: the floor layer and the two portal layers, each of
/// which is absent when the level has no cell of its kind.
#[derive(Debug, Clone, PartialEq, Eq)]
pub struct NavSurface {
    pub floor: NavLayer,
    pub portal_in: Option<NavLayer>,
    pub portal_out: Option<NavLayer>,
}

/// What a navigation surface holds.
pub ghost struct SurfaceView {
    pub floor: LayerView,
    pub portal_in: Option<LayerView>,
    pub portal_out: Option<LayerView>,
}

/// What an optional layer holds.
pub open spec fn opt_layer_view(o: Option<NavLayer>) -> Option<LayerView> {
    match o {
        Some(layer) => Some(layer@),
        None => None,
    }
}

impl View for NavSurface {
    type V = SurfaceView;

    open spec fn view(&self) -> SurfaceView {
        SurfaceView {
            floor: self.floor@,
            portal_in: opt_layer_view(self.portal_in),
            portal_out: opt_layer_view(self.portal_out),
        }
    }
}

/// The layer `layer` of the level with `removed` excluded, over the lattice.
pub open spec fn built_layer(l: Level, removed: Seq<(usize, usize)>, layer: u8) -> LayerView {
    layer_of(layer_quads(l, removed, layer), lattice(l), lattice_width(l))
}

/// A portal layer: absent when no cell goes to it.
pub open spec fn portal_layer(l: Level, removed: Seq<(usize, usize)>, layer: u8) -> Option<LayerView> {
    if layer_quads(l, removed, layer).len() == 0 {
        None
    } else {
        Some(built_layer(l, removed, layer))
    }
}

/// The navigation surface of level `l` with the cells of `removed` excluded.
pub open spec fn surface_of(l: Level, removed: Seq<(usize, usize)>) -> Result<SurfaceView, NavError> {
    if !representable(l) {
        Err(NavError::DegenerateTopology)
    } else {
        Ok(
            SurfaceView {
                floor: built_layer(l, removed, FLOOR_LAYER),
                portal_in: portal_layer(l, removed, PORTAL_IN_LAYER),
                portal_out: portal_layer(l, removed, PORTAL_OUT_LAYER),
            },
        )
    }
}

/// What a build result holds.
pub open spec fn build_view(r: Result<NavSurface, NavError>) -> Result<SurfaceView, NavError> {
    match r {
        Ok(s) => Ok(s@),
        Err(e) => Err(e),
    }
}

proof fn lemma_quads_upto_within(l: Level, removed: Seq<(usize, usize)>, layer: u8, n: nat)
    requires
        l.wf(),
        n <= l.rows() * l.cols(),
    ensures
        quads_within(quads_upto(l, removed, layer, n), lattice(l).len() as int),
        quads_upto(l, removed, layer, n).len() <= n,
    decreases n,
{
    if n > 0 {
        lemma_quads_upto_within(l, removed, layer, (n - 1) as nat);
        let c = n - 1;
        let cols = l.cols();
        let rows = l.rows();
        let w = cols + 1;
        let x = c % cols;
        let y = c / cols;
        vstd::arithmetic::div_mod::lemma_fundamental_div_mod(c, cols);
        assert(0 <= x < cols);
        assert(0 <= y < rows) by (nonlinear_arith)
            requires
                c == cols * y + x,
                0 <= x < cols,
                0 <= c < rows * cols,
                cols > 0,
        ;
        assert(x + 1 + w * (y + 1) < (rows + 1) * w) by (nonlinear_arith)
            requires
                0 <= x < cols,
                0 <= y < rows,
                w == cols + 1,
        ;
        assert(0 <= w * y <= w * (y + 1)) by (nonlinear_arith)
            requires
                0 <= y,
                w > 0,
        ;
    }
}

proof fn lemma_lattice_bounded(l: Level, v: Seq<(i64, i64)>)
    requires
        l.wf(),
        representable(l),
        coords_view(v) == lattice(l),
    ensures
        coords_bounded(v),
        v.len() == (l.rows() + 1) * (l.cols() + 1),
{
    let w = lattice_width(l);
    lemma_level_size(l);
    assert(coords_view(v).len() == v.len());
    assert forall|k: int| 0 <= k < v.len() implies -MAX_COORD <= (#[trigger] v[k]).0 <= MAX_COORD
        && -MAX_COORD <= v[k].1 <= MAX_COORD by {
        assert(coords_view(v)[k] == (v[k].0 as int, v[k].1 as int));
        vstd::arithmetic::div_mod::lemma_fundamental_div_mod(k, w);
        let x = k % w;
        let y = k / w;
        assert(0 <= y <= l.rows()) by (nonlinear_arith)
            requires
                k == w * y + x,
                0 <= x < w,
                0 <= k < (l.rows() + 1) * w,
                w > 0,
        ;
        assert(lattice(l)[k] == vertex_at(l, x, y));
        if y < l.rows() && x < l.cols() {
            assert(corner_offset(l.masks()[y][x]).is_some());
        }
    }
}

impl Level {
    /// Builds the navigation surface of the level with the cells of
    /// `removed_cells` excluded from the floor: one quad per non-empty cell,
    /// portal cells in their own layers, and around each vertex its polygons
    /// in counter-clockwise order. Fails when a cell's neighbourhood is one
    /// that the corner offsets cannot represent. Where the portal layers
    /// join the floor is given by `NavSurface::portal_stitches`.
    pub fn as_navmesh(&self, removed_cells: Vec<(usize, usize)>) -> (r: Result<NavSurface, NavError>)
        requires
            self.wf(),
        ensures
            build_view(r) == surface_of(*self, removed_cells@),
    {
        let vertices = self.corner_vertices()?;
        let cols = self.floors[0][0].len();
        proof {
            assert(self.grid()[0] == self.floors@[0]@[0]@);
            lemma_lattice_bounded(*self, vertices@);
            lemma_level_size(*self);
        }
        let width = (cols + 1) as u32;
        let polygons = self.layer_polygons(&removed_cells, FLOOR_LAYER);
        let polygons_in = self.layer_polygons(&removed_cells, PORTAL_IN_LAYER);
        let polygons_out = self.layer_polygons(&removed_cells, PORTAL_OUT_LAYER);
        proof {
            let n = (self.rows() * self.cols()) as nat;
            lemma_quads_upto_within(*self, removed_cells@, FLOOR_LAYER, n);
            lemma_quads_upto_within(*self, removed_cells@, PORTAL_IN_LAYER, n);
            lemma_quads_upto_within(*self, removed_cells@, PORTAL_OUT_LAYER, n);
            assert(polygons@.len() == layer_quads(*self, removed_cells@, FLOOR_LAYER).len());
            assert(polygons_in@.len() == layer_quads(*self, removed_cells@, PORTAL_IN_LAYER).len());
            assert(polygons_out@.len() == layer_quads(*self, removed_cells@, PORTAL_OUT_LAYER).len());
        }
        let floor = fix_indexes(polygons, &vertices, width);
        let portal_in = if polygons_in.len() == 0 {
            None
        } else {
            Some(fix_indexes(polygons_in, &vertices, width))
        };
        let portal_out = if polygons_out.len() == 0 {
            None
        } else {
            Some(fix_indexes(polygons_out, &vertices, width))
        };
        Ok(NavSurface { floor, portal_in, portal_out })
    }
}

/// The positions of `portal` that are also positions of `floor`, in order:
/// where a portal layer is stitched to the floor.
pub fn stitch_points(portal: &Vec<(i64, i64)>, floor: &Vec<(i64, i64)>) -> (r: Vec<(i64, i64)>)
    ensures
        r@ == portal@.filter(|p: (i64, i64)| floor@.contains(p)),
{
    let ghost pred = |p: (i64, i64)| floor@.contains(p);
    let mut out: Vec<(i64, i64)> = Vec::new();
    let mut i: usize = 0;
    while i < portal.len()
        invariant
            i <= portal@.len(),
            pred == (|p: (i64, i64)| floor@.contains(p)),
            out@ == portal@.take(i as int).filter(pred),
        decreases portal@.len() - i,
    {
        let p = portal[i];
        let found = contains_point(floor, p);
        if found {
            out.push(p);
        }
        proof {
            let t = portal@.take(i as int + 1);
            assert(t.drop_last() =~= portal@.take(i as int));
            assert(t.last() == p);
            reveal(Seq::filter);
        }
        i = i + 1;
    }
    proof {
        assert(portal@.take(portal@.len() as int) =~= portal@);
    }
    out
}

fn contains_point(points: &Vec<(i64, i64)>, p: (i64, i64)) -> (r: bool)
    ensures
        r == points@.contains(p),
{
    let mut i: usize = 0;
    while i < points.len()
        invariant
            i <= points@.len(),
            forall|j: int| 0 <= j < i ==> points@[j] != p,
        decreases points@.len() - i,
    {
        let c = points[i];
        if c.0 == p.0 && c.1 == p.1 {
            assert(points@[i as int] == p);
            return true;
        }
        i = i + 1;
    }
    false
}

/// Whether a layer is well formed: its polygons use only its vertices, and
/// each vertex lists only `NO_POLYGON` or polygons that have it as a vertex.
pub open spec fn layer_valid(v: LayerView) -> bool {
    &&& quads_within(v.polygons, v.positions.len() as int)
    &&& v.around.len() == v.positions.len()
    &&& forall|k: int, j: int|
        0 <= k < v.around.len() && 0 <= j < v.around[k].len() ==> {
            let p = #[trigger] v.around[k][j];
            p == NO_POLYGON || (p < v.polygons.len() && touches(v.polygons[p as int], k))
        }
}

proof fn lemma_first_pick_touches(quads: Seq<Seq<int>>, coords: Seq<(int, int)>, w: int, k: int, q: int, n: nat)
    requires
        n <= quads.len(),
    ensures
        first_pick(quads, coords, w, k, q, n) == NO_POLYGON as int || (0 <= first_pick(
            quads,
            coords,
            w,
            k,
            q,
            n,
        ) < n && touches(quads[first_pick(quads, coords, w, k, q, n)], k)),
    decreases n,
{
    if n > 0 {
        lemma_first_pick_touches(quads, coords, w, k, q, (n - 1) as nat);
    }
}

proof fn lemma_dedup_subset(s: Seq<u32>)
    ensures
        forall|j: int| 0 <= j < dedup(s).len() ==> s.contains(#[trigger] dedup(s)[j]),
    decreases s.len(),
{
    if s.len() > 1 {
        let d = s.drop_last();
        lemma_dedup_subset(d);
        assert forall|j: int| 0 <= j < dedup(s).len() implies s.contains(#[trigger] dedup(s)[j]) by {
            if j < dedup(d).len() {
                let x = dedup(d)[j];
                assert(d.contains(x));
                let i = choose|i: int| 0 <= i < d.len() && d[i] == x;
                assert(s[i] == x);
            } else {
                assert(dedup(s)[j] == s[s.len() - 1]);
            }
        }
    } else {
        assert forall|j: int| 0 <= j < dedup(s).len() implies s.contains(#[trigger] dedup(s)[j]) by {
            assert(s[j] == dedup(s)[j]);
        }
    }
}

proof fn lemma_rotate_subset(s: Seq<u32>)
    ensures
        forall|j: int| 0 <= j < rotate_left_one(s).len() ==> s.contains(#[trigger] rotate_left_one(s)[j]),
{
    assert forall|j: int| 0 <= j < rotate_left_one(s).len() implies s.contains(#[trigger] rotate_left_one(s)[j]) by {
        if j < s.len() - 1 {
            assert(rotate_left_one(s)[j] == s[j + 1]);
        } else {
            assert(rotate_left_one(s)[j] == s[0]);
        }
    }
}

/// Every layer that `layer_of` builds from quads within its vertices is well
/// formed.
pub proof fn lemma_layer_of_valid(quads: Seq<Seq<int>>, coords: Seq<(int, int)>, w: int)
    requires
        quads_within(quads, coords.len() as int),
        quads.len() < NO_POLYGON,
    ensures
        layer_valid(layer_of(quads, coords, w)),
{
    let v = layer_of(quads, coords, w);
    assert forall|k: int, j: int| 0 <= k < v.around.len() && 0 <= j < v.around[k].len() implies {
        let p = #[trigger] v.around[k][j];
        p == NO_POLYGON || (p < v.polygons.len() && touches(v.polygons[p as int], k))
    } by {
        let raw = Seq::new(4, |q: int| first_pick(quads, coords, w, k, q, quads.len()) as u32);
        let once = dedup(raw);
        let turned = rotate_left_one(once);
        lemma_dedup_subset(raw);
        lemma_rotate_subset(once);
        lemma_dedup_subset(turned);
        let p = v.around[k][j];
        assert(turned.contains(p));
        let a = choose|a: int| 0 <= a < turned.len() && turned[a] == p;
        assert(once.contains(turned[a]));
        let b = choose|b: int| 0 <= b < once.len() && once[b] == p;
        assert(raw.contains(once[b]));
        let q = choose|q: int| 0 <= q < raw.len() && raw[q] == p;
        lemma_first_pick_touches(quads, coords, w, k, q, quads.len());
    }
}

/// Whatever the level and the excluded cells, the builder either reports
/// `DegenerateTopology` or gives a surface whose layers are all well formed
/// and share the lattice of `(rows + 1) * (cols + 1)` vertices.
pub proof fn lemma_surface_valid(l: Level, removed: Seq<(usize, usize)>)
    requires
        l.wf(),
    ensures
        match surface_of(l, removed) {
            Err(e) => e == NavError::DegenerateTopology && !representable(l),
            Ok(s) => {
                &&& layer_valid(s.floor)
                &&& s.floor.positions.len() == (l.rows() + 1) * (l.cols() + 1)
                &&& (s.portal_in matches Some(p) ==> layer_valid(p) && p.polygons.len() > 0)
                &&& (s.portal_out matches Some(p) ==> layer_valid(p) && p.polygons.len() > 0)
            },
        },
{
    if representable(l) {
        let n = (l.rows() * l.cols()) as nat;
        lemma_level_size(l);
        lemma_quads_upto_within(l, removed, FLOOR_LAYER, n);
        lemma_quads_upto_within(l, removed, PORTAL_IN_LAYER, n);
        lemma_quads_upto_within(l, removed, PORTAL_OUT_LAYER, n);
        lemma_layer_of_valid(layer_quads(l, removed, FLOOR_LAYER), lattice(l), lattice_width(l));
        lemma_layer_of_valid(layer_quads(l, removed, PORTAL_IN_LAYER), lattice(l), lattice_width(l));
        lemma_layer_of_valid(layer_quads(l, removed, PORTAL_OUT_LAYER), lattice(l), lattice_width(l));
    }
}

/// Whether a vertex with polygon list `around` bounds a polygon: a vertex
/// listing none, or only `NO_POLYGON`, is stripped from its layer.
pub open spec fn bounds_polygon(around: Seq<u32>) -> bool {
    around.len() > 0 && around != seq![NO_POLYGON]
}

/// The positions of those of the first `n` vertices that bound a polygon.
pub open spec fn used_upto(vs: Seq<NavVertex>, n: nat) -> Seq<(i64, i64)>
    decreases n,
{
    if n == 0 {
        seq![]
    } else {
        let prev = used_upto(vs, (n - 1) as nat);
        let v = vs[n - 1];
        if bounds_polygon(v.polygons@) {
            prev.push((v.x, v.y))
        } else {
            prev
        }
    }
}

/// The positions of the vertices of `l` that bound a polygon, in order.
pub open spec fn used_positions(l: NavLayer) -> Seq<(i64, i64)> {
    used_upto(l.vertices@, l.vertices@.len())
}

/// Where portal layer `portal` joins `floor`: the positions of its vertices
/// that bound a polygon and coincide with a floor vertex that bounds one.
pub open spec fn stitches_between(portal: NavLayer, floor: NavLayer) -> Seq<(i64, i64)> {
    used_positions(portal).filter(|p: (i64, i64)| used_positions(floor).contains(p))
}

fn used_positions_of(l: &NavLayer) -> (r: Vec<(i64, i64)>)
    ensures
        r@ == used_positions(*l),
{
    let mut out: Vec<(i64, i64)> = Vec::new();
    let mut k: usize = 0;
    while k < l.vertices.len()
        invariant
            k <= l.vertices@.len(),
            out@ == used_upto(l.vertices@, k as nat),
        decreases l.vertices@.len() - k,
    {
        let v = &l.vertices[k];
        let n = v.polygons.len();
        let bounds = n > 0 && !(n == 1 && v.polygons[0] == NO_POLYGON);
        proof {
            if n == 1 && v.polygons@[0] == NO_POLYGON {
                assert(v.polygons@ =~= seq![NO_POLYGON]);
            }
            assert(bounds == bounds_polygon(v.polygons@));
        }
        if bounds {
            out.push((v.x, v.y));
        }
        k = k + 1;
    }
    out
}

impl NavSurface {
    /// The points where portal layer `layer` is stitched to the floor, when
    /// that layer is present: the positions of its vertices that bound a
    /// polygon and coincide with a floor vertex that bounds one. Vertices
    /// that bound no polygon are stripped before stitching. Crossing at
    /// these points changes layer at no cost. `None` for an absent portal
    /// layer, or a layer that is not a portal layer.
    pub fn portal_stitches(&self, layer: u8) -> (r: Option<Vec<(i64, i64)>>)
        ensures
            match (if layer == PORTAL_IN_LAYER {
                self.portal_in
            } else if layer == PORTAL_OUT_LAYER {
                self.portal_out
            } else {
                None
            }) {
                None => r.is_none(),
                Some(p) => r matches Some(v) && v@ == stitches_between(p, self.floor),
            },
    {
        let portal = if layer == PORTAL_IN_LAYER {
            &self.portal_in
        } else if layer == PORTAL_OUT_LAYER {
            &self.portal_out
        } else {
            return None;
        };
        match portal {
            None => None,
            Some(p) => {
                let floor = used_positions_of(&self.floor);
                Some(stitch_points(&used_positions_of(p), &floor))
            },
        }
    }
}

} // verus!
