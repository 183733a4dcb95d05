//! The grid model of a level: cell kinds and per-cell occupancy masks.

use vstd::prelude::*;

verus! {

/// Bit of an occupancy mask: the cell itself is not empty.
pub const CENTER: u32 = 0b000000001;
/// Bit of an occupancy mask: the cell above is not empty.
pub const TOP: u32 = 0b000000010;
/// Bit of an occupancy mask: the cell below is not empty.
pub const BOTTOM: u32 = 0b000000100;
/// Bit of an occupancy mask: the cell on the left is not empty.
pub const LEFT: u32 = 0b000001000;
/// Bit of an occupancy mask: the cell on the right is not empty.
pub const RIGHT: u32 = 0b000010000;
/// Bit of an occupancy mask: the cell above on the left is not empty.
pub const TOPLEFT: u32 = 0b000100000;
/// Bit of an occupancy mask: the cell above on the right is not empty.
pub const TOPRIGHT: u32 = 0b001000000;
/// Bit of an occupancy mask: the cell below on the left is not empty.
pub const BOTTOMLEFT: u32 = 0b010000000;
/// Bit of an occupancy mask: the cell below on the right is not empty.
pub const BOTTOMRIGHT: u32 = 0b100000000;

/// The direction a goal cell faces.
#[derive(Debug, Clone, Copy, PartialEq, Eq, Structural)]
pub enum Facing {
    North,
    East,
    South,
    West,
}

/// The kind of one cell of a level.
#[derive(Debug, Clone, Copy, PartialEq, Eq, Structural)]
pub enum Tile {
    Start,
    Floor,
    Chest(Facing),
    In,
    Out,
    Empty,
}

/// Bonus items a level grants to the player.
#[derive(Debug, Clone, Copy, PartialEq, Eq, Structural)]
pub enum Bonus {
    Obstacle,
}

/// The occupancy mask of a cell: which of itself and its eight neighbours are
/// not empty, one bit each.
#[derive(Debug, Clone, Copy, PartialEq, Eq, Structural)]
pub struct Flags {
    pub bits: u32,
}

impl Flags {
    /// Whether every bit of `bits` is set in this mask.
    pub fn contains(&self, bits: u32) -> (r: bool)
        ensures
            r == (self.bits & bits == bits),
    {
        self.bits & bits == bits
    }
}

/// A parsed level: its cells, their occupancy masks, the spawn and goal cells
/// and the rules of the round.
///
/// Cells are indexed `[floor][row][column]`; only floor 0 is used. The spawn
/// and goal cells are `(floor, column, row)`.
#[derive(Debug)]
pub struct Level {
    pub floors: Vec<Vec<Vec<Tile>>>,
    pub neighbours: Vec<Vec<Vec<Flags>>>,
    pub start: (usize, usize, usize),
    pub end: (usize, usize, usize),
    pub nb_hobbits: u32,
    /// Delay between two spawns, in milliseconds.
    pub spawn_delay: u64,
    pub message: Option<String>,
    pub goal: Option<String>,
    pub treasures: u32,
    pub losts: Option<u32>,
    pub bonus: Vec<Bonus>,
    pub file: String,
}

/// Largest number of vertices, `(rows + 1) * (cols + 1)`, of the lattice of a
/// level: vertex and polygon indices are `u32`, and `u32::MAX` stands for "no
/// polygon" beside a vertex.
pub const MAX_LATTICE: u64 = 0xffff_ffff;

/// The cells of a floor, row by row.
pub open spec fn cells_of(floor: Seq<Vec<Tile>>) -> Seq<Seq<Tile>> {
    floor.map(|_i, r: Vec<Tile>| r@)
}

/// Whether the cell at column `x`, row `y` lies on the grid and is not empty.
pub open spec fn occupied(g: Seq<Seq<Tile>>, x: int, y: int) -> bool {
    0 <= y < g.len() && 0 <= x < g[y].len() && g[y][x] != Tile::Empty
}

/// `bit` when `b` holds, else no bit.
pub open spec fn bit_if(b: bool, bit: u32) -> u32 {
    if b {
        bit
    } else {
        0
    }
}

/// The occupancy mask of the cell at column `x`, row `y`.
pub open spec fn mask_of(g: Seq<Seq<Tile>>, x: int, y: int) -> u32 {
    bit_if(occupied(g, x - 1, y - 1), TOPLEFT) | bit_if(occupied(g, x - 1, y), LEFT) | bit_if(
        occupied(g, x - 1, y + 1),
        BOTTOMLEFT,
    ) | bit_if(occupied(g, x, y - 1), TOP) | bit_if(occupied(g, x, y), CENTER) | bit_if(
        occupied(g, x, y + 1),
        BOTTOM,
    ) | bit_if(occupied(g, x + 1, y - 1), TOPRIGHT) | bit_if(occupied(g, x + 1, y), RIGHT)
        | bit_if(occupied(g, x + 1, y + 1), BOTTOMRIGHT)
}

/// Whether every row of `g` has `cols` cells.
pub open spec fn rectangular<T>(g: Seq<Seq<T>>, cols: int) -> bool {
    forall|y: int| 0 <= y < g.len() ==> #[trigger] g[y].len() == cols
}

fn occupied_at(floor: &Vec<Vec<Tile>>, x: i128, y: i128) -> (r: bool)
    requires
        -1 <= x <= usize::MAX + 1,
        -1 <= y <= usize::MAX + 1,
    ensures
        r == occupied(cells_of(floor@), x as int, y as int),
{
    if y < 0 || x < 0 || y >= floor.len() as i128 {
        return false;
    }
    let row = &floor[y as usize];
    assert(cells_of(floor@)[y as int] == row@);
    if x >= row.len() as i128 {
        return false;
    }
    row[x as usize] != Tile::Empty
}

fn bit_when(b: bool, bit: u32) -> (r: u32)
    ensures
        r == bit_if(b, bit),
{
    if b {
        bit
    } else {
        0
    }
}

/// The occupancy mask of the cell at column `i`, row `j` of `floor`.
pub fn get_neighbours(floor: &Vec<Vec<Tile>>, i: usize, j: usize) -> (r: Flags)
    ensures
        r.bits == mask_of(cells_of(floor@), i as int, j as int),
{
    let x = i as i128;
    let y = j as i128;
    let bits = bit_when(occupied_at(floor, x - 1, y - 1), TOPLEFT) | bit_when(
        occupied_at(floor, x - 1, y),
        LEFT,
    ) | bit_when(occupied_at(floor, x - 1, y + 1), BOTTOMLEFT) | bit_when(
        occupied_at(floor, x, y - 1),
        TOP,
    ) | bit_when(occupied_at(floor, x, y), CENTER) | bit_when(occupied_at(floor, x, y + 1), BOTTOM)
        | bit_when(occupied_at(floor, x + 1, y - 1), TOPRIGHT) | bit_when(
        occupied_at(floor, x + 1, y),
        RIGHT,
    ) | bit_when(occupied_at(floor, x + 1, y + 1), BOTTOMRIGHT);
    Flags { bits }
}

impl Level {
    /// The cells of floor 0, row by row.
    pub open spec fn grid(&self) -> Seq<Seq<Tile>> {
        cells_of(self.floors@[0]@)
    }

    /// The occupancy masks of floor 0, row by row.
    pub open spec fn masks(&self) -> Seq<Seq<u32>> {
        self.neighbours@[0]@.map(|_i, r: Vec<Flags>| r@.map(|_j, f: Flags| f.bits))
    }

    pub open spec fn rows(&self) -> int {
        self.grid().len() as int
    }

    pub open spec fn cols(&self) -> int {
        self.grid()[0].len() as int
    }

    /// A level is well formed when floor 0 and its masks form one rectangle
    /// of at least one cell, whose lattice of corners has at most
    /// `MAX_LATTICE` vertices.
    pub open spec fn wf(&self) -> bool {
        &&& self.floors@.len() >= 1
        &&& self.neighbours@.len() >= 1
        &&& 1 <= self.rows()
        &&& 1 <= self.cols()
        &&& (self.rows() + 1) * (self.cols() + 1) <= MAX_LATTICE
        &&& rectangular(self.grid(), self.cols())
        &&& self.masks().len() == self.rows()
        &&& rectangular(self.masks(), self.cols())
    }
}

impl Level {
    /// Whether the level is well formed.
    pub fn is_wf(&self) -> (r: bool)
        ensures
            r == self.wf(),
    {
        if self.floors.len() == 0 || self.neighbours.len() == 0 {
            return false;
        }
        let floor = &self.floors[0];
        let masks = &self.neighbours[0];
        let rows = floor.len();
        if rows == 0 {
            return false;
        }
        let cols = floor[0].len();
        proof {
            assert(self.grid().len() == rows);
            assert(self.grid()[0] == floor@[0]@);
        }
        proof {
            if self.wf() {
                lemma_level_size(*self);
            }
        }
        if cols == 0 || rows >= 0xffff_ffff || cols >= 0xffff_ffff {
            return false;
        }
        let r1 = rows as u128 + 1;
        let c1 = cols as u128 + 1;
        assert(r1 * c1 <= 0x1_0000_0000 * 0x1_0000_0000) by (nonlinear_arith)
            requires
                0 <= r1 <= 0x1_0000_0000,
                0 <= c1 <= 0x1_0000_0000,
        ;
        if r1 * c1 > MAX_LATTICE as u128 {
            return false;
        }
        if masks.len() != rows {
            return false;
        }
        let mut y: usize = 0;
        while y < rows
            invariant
                y <= rows,
                rows == floor@.len() == masks@.len(),
                floor == self.floors@[0],
                masks == self.neighbours@[0],
                cols == self.cols(),
                rows == self.rows(),
                self.masks().len() == rows,
                forall|k: int| 0 <= k < y ==> #[trigger] self.grid()[k].len() == cols,
                forall|k: int| 0 <= k < y ==> #[trigger] self.masks()[k].len() == cols,
            decreases rows - y,
        {
            proof {
                assert(self.grid()[y as int] == floor@[y as int]@);
                assert(self.masks()[y as int] == masks@[y as int]@.map(|_j, f: Flags| f.bits));
            }
            if floor[y].len() != cols || masks[y].len() != cols {
                return false;
            }
            y = y + 1;
        }
        true
    }
}

/// The occupancy masks of every cell of `floor`, row by row, over as many
/// columns as its first row has.
pub fn neighbours_of(floor: &Vec<Vec<Tile>>) -> (r: Vec<Vec<Flags>>)
    ensures
        r@.len() == floor@.len(),
        forall|y: int| 0 <= y < r@.len() ==> #[trigger] r@[y]@.len() == floor@[0]@.len(),
        forall|y: int, x: int|
            0 <= y < r@.len() && 0 <= x < floor@[0]@.len() ==> (#[trigger] r@[y]@[x]).bits
                == mask_of(cells_of(floor@), x, y),
{
    let mut out: Vec<Vec<Flags>> = Vec::new();
    if floor.len() == 0 {
        return out;
    }
    let cols = floor[0].len();
    let mut j: usize = 0;
    while j < floor.len()
        invariant
            j <= floor@.len(),
            cols == floor@[0]@.len(),
            out@.len() == j,
            forall|y: int| 0 <= y < j ==> #[trigger] out@[y]@.len() == cols,
            forall|y: int, x: int|
                0 <= y < j && 0 <= x < cols ==> (#[trigger] out@[y]@[x]).bits == mask_of(
                    cells_of(floor@),
                    x,
                    y,
                ),
        decreases floor@.len() - j,
    {
        let mut row: Vec<Flags> = Vec::new();
        let mut i: usize = 0;
        while i < cols
            invariant
                i <= cols,
                j < floor@.len(),
                row@.len() == i,
                forall|x: int|
                    0 <= x < i ==> (#[trigger] row@[x]).bits == mask_of(
                        cells_of(floor@),
                        x,
                        j as int,
                    ),
            decreases cols - i,
        {
            row.push(get_neighbours(floor, i, j));
            i = i + 1;
        }
        out.push(row);
        j = j + 1;
    }
    out
}

/// The sizes that a well-formed level keeps within machine integers.
pub proof fn lemma_level_size(l: Level)
    requires
        l.wf(),
    ensures
        l.rows() < 0xffff_ffff,
        l.cols() < 0xffff_ffff,
        0 < l.rows() * l.cols() < MAX_LATTICE,
        l.rows() * l.cols() == l.cols() * l.rows(),
        (l.rows() + 1) * (l.cols() + 1) == (l.cols() + 1) * (l.rows() + 1),
{
    let r = l.rows();
    let c = l.cols();
    assert(r < 0xffff_ffff && c < 0xffff_ffff && 0 < r * c < 0xffff_ffff) by (nonlinear_arith)
        requires
            r >= 1,
            c >= 1,
            (r + 1) * (c + 1) <= 0xffff_ffff,
    ;
    assert(r * c == c * r) by (nonlinear_arith);
    assert((r + 1) * (c + 1) == (c + 1) * (r + 1)) by (nonlinear_arith);
}

} // verus!
