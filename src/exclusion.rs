//! The set of cells that placed obstacles currently block.

use vstd::prelude::*;
use crate::grid::Level;
use crate::navmesh::{build_view, surface_of, NavError, NavSurface, contains_cell, quads_upto, layer_quads};

verus! {

/// The cells, as `(column, row)`, that obstacles block. Each cell is held once.
#[derive(Debug, Clone)]
pub struct ExclusionSet {
    cells: Vec<(usize, usize)>,
}

impl View for ExclusionSet {
    type V = Set<(usize, usize)>;

    closed spec fn view(&self) -> Set<(usize, usize)> {
        self.cells@.to_set()
    }
}

impl ExclusionSet {
    /// The cells in the order they were placed.
    pub closed spec fn order(&self) -> Seq<(usize, usize)> {
        self.cells@
    }

    /// No cell is held twice.
    pub closed spec fn wf(&self) -> bool {
        self.cells@.no_duplicates()
    }

    /// An empty set.
    pub fn new() -> (r: Self)
        ensures
            r.wf(),
            r@ == Set::<(usize, usize)>::empty(),
    {
        let r = ExclusionSet { cells: Vec::new() };
        assert(r@ =~= Set::<(usize, usize)>::empty());
        r
    }

    /// Whether the cell at column `x`, row `y` is blocked.
    pub fn contains(&self, x: usize, y: usize) -> (r: bool)
        ensures
            r == self@.contains((x, y)),
    {
        contains_cell(&self.cells, x, y)
    }

    /// The number of blocked cells.
    pub fn len(&self) -> (r: usize)
        requires
            self.wf(),
        ensures
            r == self@.len(),
    {
        proof {
            self.cells@.unique_seq_to_set();
        }
        self.cells.len()
    }

    /// Blocks the cell at column `x`, row `y`; returns whether it was free.
    pub fn place(&mut self, x: usize, y: usize) -> (r: bool)
        requires
            old(self).wf(),
        ensures
            final(self).wf(),
            final(self)@ == old(self)@.insert((x, y)),
            r == !old(self)@.contains((x, y)),
    {
        if contains_cell(&self.cells, x, y) {
            assert(self@.insert((x, y)) =~= self@);
            return false;
        }
        let ghost before = self.cells@;
        self.cells.push((x, y));
        proof {
            assert(self.cells@ == before.push((x, y)));
            assert(self.cells@.no_duplicates()) by {
                assert forall|i: int, j: int|
                    0 <= i < self.cells@.len() && 0 <= j < self.cells@.len() && i != j implies self.cells@[i]
                    != self.cells@[j] by {
                    if i == before.len() {
                        assert(before.contains(self.cells@[j]));
                    } else if j == before.len() {
                        assert(before.contains(self.cells@[i]));
                    }
                }
            }
            assert(self@ =~= old(self)@.insert((x, y))) by {
                assert forall|c: (usize, usize)| self@.contains(c) == old(self)@.insert((x, y)).contains(c) by {
                    if self.cells@.contains(c) && c != (x, y) {
                        let i = choose|i: int| 0 <= i < self.cells@.len() && self.cells@[i] == c;
                        assert(before[i] == c);
                    }
                    if before.contains(c) {
                        let i = choose|i: int| 0 <= i < before.len() && before[i] == c;
                        assert(self.cells@[i] == c);
                    }
                    if c == (x, y) {
                        assert(self.cells@[before.len() as int] == c);
                    }
                }
            }
        }
        true
    }

    /// Frees the cell at column `x`, row `y`; returns whether it was blocked.
    pub fn remove(&mut self, x: usize, y: usize) -> (r: bool)
        requires
            old(self).wf(),
        ensures
            final(self).wf(),
            final(self)@ == old(self)@.remove((x, y)),
            r == old(self)@.contains((x, y)),
    {
        let ghost before = self.cells@;
        let mut kept: Vec<(usize, usize)> = Vec::new();
        let mut found = false;
        let mut i: usize = 0;
        while i < self.cells.len()
            invariant
                before == self.cells@,
                before.no_duplicates(),
                i <= before.len(),
                kept@ == before.take(i as int).filter(|c: (usize, usize)| c != (x, y)),
                found == before.take(i as int).contains((x, y)),
            decreases before.len() - i,
        {
            let c = self.cells[i];
            proof {
                let t = before.take(i as int + 1);
                assert(t.drop_last() =~= before.take(i as int));
                assert(t.last() == c);
                reveal(Seq::filter);
                if before.take(i as int).contains((x, y)) {
                    let j = choose|j: int| 0 <= j < i && before.take(i as int)[j] == (x, y);
                    assert(t[j] == (x, y));
                }
                if t.contains((x, y)) {
                    let j = choose|j: int| 0 <= j <= i && t[j] == (x, y);
                    if j < i {
                        assert(before.take(i as int)[j] == (x, y));
                    }
                }
            }
            if c.0 == x && c.1 == y {
                found = true;
                assert(before.take(i as int + 1)[i as int] == (x, y));
            } else {
                kept.push(c);
            }
            i = i + 1;
        }
        proof {
            assert(before.take(before.len() as int) =~= before);
            let pred = |c: (usize, usize)| c != (x, y);
            broadcast use vstd::seq_lib::group_filter_ensures;
            assert(kept@.no_duplicates()) by {
                lemma_filter_no_duplicates(before, pred);
            }
            assert(kept@.to_set() =~= before.to_set().remove((x, y))) by {
                assert forall|c: (usize, usize)| kept@.contains(c) == before.to_set().remove((x, y)).contains(c) by {
                    if kept@.contains(c) {
                        before.lemma_filter_contains_rev(pred, c);
                        let j = choose|j: int| 0 <= j < kept@.len() && kept@[j] == c;
                        assert(pred(kept@[j]));
                    }
                    if before.contains(c) && c != (x, y) {
                        let j = choose|j: int| 0 <= j < before.len() && before[j] == c;
                        before.lemma_filter_contains(pred, j);
                    }
                }
            }
        }
        self.cells = kept;
        found
    }

    /// The blocked cells, in the order they were placed.
    pub fn cells(&self) -> (r: Vec<(usize, usize)>)
        ensures
            r@ == self.order(),
            r@.to_set() == self@,
    {
        let mut out: Vec<(usize, usize)> = Vec::new();
        let mut i: usize = 0;
        while i < self.cells.len()
            invariant
                i <= self.cells@.len(),
                out@ == self.cells@.take(i as int),
            decreases self.cells@.len() - i,
        {
            out.push(self.cells[i]);
            proof {
                assert(out@ =~= self.cells@.take(i as int + 1));
            }
            i = i + 1;
        }
        assert(out@ =~= self.cells@);
        out
    }
}

proof fn lemma_filter_no_duplicates(s: Seq<(usize, usize)>, pred: spec_fn((usize, usize)) -> bool)
    requires
        s.no_duplicates(),
    ensures
        s.filter(pred).no_duplicates(),
    decreases s.len(),
{
    reveal(Seq::filter);
    if s.len() > 0 {
        let d = s.drop_last();
        assert(d.no_duplicates());
        lemma_filter_no_duplicates(d, pred);
        if pred(s.last()) {
            broadcast use vstd::seq_lib::group_filter_ensures;
            assert(!d.contains(s.last())) by {
                if d.contains(s.last()) {
                    let j = choose|j: int| 0 <= j < d.len() && d[j] == s.last();
                    assert(s[j] == s[s.len() - 1]);
                }
            }
            assert(!d.filter(pred).contains(s.last())) by {
                if d.filter(pred).contains(s.last()) {
                    d.lemma_filter_contains_rev(pred, s.last());
                }
            }
            let f = d.filter(pred).push(s.last());
            assert forall|i: int, j: int| 0 <= i < f.len() && 0 <= j < f.len() && i != j implies f[i] != f[j] by {
                if i == f.len() - 1 {
                    assert(d.filter(pred).contains(f[j]));
                } else if j == f.len() - 1 {
                    assert(d.filter(pred).contains(f[i]));
                }
            }
        }
    }
}

proof fn lemma_quads_depend_on_set(l: Level, a: Seq<(usize, usize)>, b: Seq<(usize, usize)>, layer: u8, n: nat)
    requires
        a.to_set() == b.to_set(),
    ensures
        quads_upto(l, a, layer, n) == quads_upto(l, b, layer, n),
    decreases n,
{
    if n > 0 {
        lemma_quads_depend_on_set(l, a, b, layer, (n - 1) as nat);
        let c = n - 1;
        let cell = ((c % l.cols()) as usize, (c / l.cols()) as usize);
        assert(a.to_set().contains(cell) == a.contains(cell));
        assert(b.to_set().contains(cell) == b.contains(cell));
    }
}

/// The surface depends on the excluded cells as a set: neither their order
/// nor repeats change it.
pub proof fn lemma_surface_depends_on_set(l: Level, a: Seq<(usize, usize)>, b: Seq<(usize, usize)>)
    requires
        a.to_set() == b.to_set(),
    ensures
        surface_of(l, a) == surface_of(l, b),
{
    let n = (l.rows() * l.cols()) as nat;
    lemma_quads_depend_on_set(l, a, b, 0, n);
    lemma_quads_depend_on_set(l, a, b, 1, n);
    lemma_quads_depend_on_set(l, a, b, 2, n);
}

/// Excluding cells that were free and then freeing them again gives back the
/// surface built before: same layers, same polygons, same vertices.
pub proof fn lemma_exclude_then_restore(
    l: Level,
    before: Seq<(usize, usize)>,
    cells: Set<(usize, usize)>,
    restored: Seq<(usize, usize)>,
)
    requires
        before.to_set().disjoint(cells),
        restored.to_set() == before.to_set().union(cells).difference(cells),
    ensures
        surface_of(l, restored) == surface_of(l, before),
{
    assert(restored.to_set() =~= before.to_set());
    lemma_surface_depends_on_set(l, restored, before);
}

/// Building twice from the same level and the same excluded cells gives the
/// same outcome: the same surface, or the same error.
pub proof fn lemma_build_repeatable(
    l: Level,
    removed: Seq<(usize, usize)>,
    first: Result<NavSurface, NavError>,
    second: Result<NavSurface, NavError>,
)
    requires
        build_view(first) == surface_of(l, removed),
        build_view(second) == surface_of(l, removed),
    ensures
        build_view(first) == build_view(second),
{
}

/// Whether the build fails does not depend on the excluded cells, only on the
/// occupancy masks: it fails exactly when one cell's mask cannot be
/// represented, and then with `DegenerateTopology`.
pub proof fn lemma_build_fails_on_masks_alone(l: Level, a: Seq<(usize, usize)>, b: Seq<(usize, usize)>)
    ensures
        surface_of(l, a).is_err() == surface_of(l, b).is_err(),
        surface_of(l, a).is_err() ==> surface_of(l, a) == Err::<crate::navmesh::SurfaceView, NavError>(
            NavError::DegenerateTopology,
        ),
{
}

} // verus!
