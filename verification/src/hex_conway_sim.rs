//! A Game of Life variant on a bounded hexagonal grid, with configurable
//! birth and survival neighbour-count sets.  States are stored row-major as
//! one `Vec<u8>` per row; a step reads only the previous generation and then
//! replaces the whole grid, so updates are synchronous.

use vstd::prelude::*;
use crate::hex_geom::{
    AxialCoord,
    HexGeometry,
    OffsetCoord,
    lemma_hex_neighbours_in_bounds,
    spec_axial_q,
    spec_hex_neighbours,
    spec_offset_x,
};

verus! {

/// The grid has exactly `rows` rows of exactly `cols` cells each.
pub open spec fn grid_wf(g: Seq<Seq<u8>>, cols: int, rows: int) -> bool {
    &&& g.len() == rows
    &&& forall|y: int| 0 <= y < rows ==> (#[trigger] g[y]).len() == cols
}

/// How many of the axial cells listed in `nbs` are alive in `g`, looked up
/// through their offset coordinates, counted in enumeration order.
pub open spec fn live_nbs(g: Seq<Seq<u8>>, nbs: Seq<AxialCoord>) -> int
    decreases nbs.len(),
{
    if nbs.len() == 0 {
        0
    } else {
        live_nbs(g, nbs.drop_last()) + ({
            let n = nbs.last();
            if g[n.r as int][spec_offset_x(n.q as int, n.r as int)] > 0 {
                1int
            } else {
                0int
            }
        })
    }
}

/// The live-neighbour count of the cell at offset coordinates (x, y).
pub open spec fn spec_hex_live_count(g: Seq<Seq<u8>>, cols: int, rows: int, x: int, y: int) -> int {
    live_nbs(g, spec_hex_neighbours(cols, rows, spec_axial_q(x, y), y))
}

/// The next value of the cell at offset (x, y): membership of its
/// live-neighbour count in the survival set when alive, in the birth set
/// when dead.
pub open spec fn spec_hex_next_val(
    g: Seq<Seq<u8>>,
    birth: Seq<u8>,
    stay: Seq<u8>,
    cols: int,
    rows: int,
    x: int,
    y: int,
) -> u8 {
    let n = spec_hex_live_count(g, cols, rows, x, y);
    if g[y][x] > 0 {
        if stay.contains(n as u8) {
            1
        } else {
            0
        }
    } else {
        if birth.contains(n as u8) {
            1
        } else {
            0
        }
    }
}

/// Row `y` of the next generation.
pub open spec fn spec_hex_step_row(
    g: Seq<Seq<u8>>,
    birth: Seq<u8>,
    stay: Seq<u8>,
    cols: int,
    rows: int,
    y: int,
) -> Seq<u8> {
    Seq::new(cols as nat, |x: int| spec_hex_next_val(g, birth, stay, cols, rows, x, y))
}

/// The whole next generation as a function of the previous one: stepping is
/// deterministic because the new grid is this value and nothing else.
pub open spec fn spec_hex_step_grid(
    g: Seq<Seq<u8>>,
    birth: Seq<u8>,
    stay: Seq<u8>,
    cols: int,
    rows: int,
) -> Seq<Seq<u8>> {
    Seq::new(rows as nat, |y: int| spec_hex_step_row(g, birth, stay, cols, rows, y))
}

/// Membership test against a rule set.
fn rule_contains(v: &Vec<u8>, n: u8) -> (b: bool)
    ensures
        b == v@.contains(n),
{
    let mut k: usize = 0;
    while k < v.len()
        invariant
            k <= v@.len(),
            forall|j: int| 0 <= j < k ==> v@[j] != n,
        decreases v@.len() - k,
    {
        if v[k] == n {
            return true;
        }
        k = k + 1;
    }
    false
}

/// A row of a nested vector, seen through the nested view.
proof fn lemma_grid_row(s: Vec<Vec<u8>>, i: int)
    requires
        0 <= i < s@.len(),
    ensures
        s.deep_view()[i] == s@[i]@,
{
    assert(s.deep_view()[i] =~= s@[i]@);
}

/// A hexagonal Game of Life simulation with configurable rule sets.
pub struct HexConwaySimulation<'a> {
    geo: &'a HexGeometry,
    states: Vec<Vec<u8>>,
    birth: Vec<u8>,
    stay: Vec<u8>,
}

impl<'a> HexConwaySimulation<'a> {
    pub closed spec fn spec_geo(&self) -> &'a HexGeometry {
        self.geo
    }

    /// The current generation, one sequence of cell values per row.
    pub closed spec fn grid(&self) -> Seq<Seq<u8>> {
        self.states.deep_view()
    }

    pub closed spec fn spec_birth(&self) -> Seq<u8> {
        self.birth@
    }

    pub closed spec fn spec_stay(&self) -> Seq<u8> {
        self.stay@
    }

    pub closed spec fn wf(&self) -> bool {
        &&& self.geo.wf()
        &&& grid_wf(self.grid(), self.geo.cols as int, self.geo.rows as int)
    }

    /// A fresh simulation with every cell dead and the given birth and
    /// survival neighbour-count sets.
    pub fn new(geo: &'a HexGeometry, birth: &[u8], stay: &[u8]) -> (sim: Self)
        requires
            geo.wf(),
        ensures
            sim.wf(),
            sim.spec_geo() == geo,
            sim.spec_birth() == birth@,
            sim.spec_stay() == stay@,
            forall|y: int, x: int|
                0 <= y < geo.rows && 0 <= x < geo.cols ==> #[trigger] sim.grid()[y][x] == 0,
    {
        let mut states: Vec<Vec<u8>> = Vec::new();
        let mut y: usize = 0;
        while y < geo.rows
            invariant
                y <= geo.rows,
                states@.len() == y,
                forall|yy: int| 0 <= yy < y ==> (#[trigger] states@[yy])@.len() == geo.cols,
                forall|yy: int, xx: int|
                    0 <= yy < y && 0 <= xx < geo.cols ==> #[trigger] states@[yy]@[xx] == 0,
            decreases geo.rows - y,
        {
            let mut row: Vec<u8> = Vec::new();
            let mut x: usize = 0;
            while x < geo.cols
                invariant
                    x <= geo.cols,
                    row@.len() == x,
                    forall|xx: int| 0 <= xx < x ==> #[trigger] row@[xx] == 0,
                decreases geo.cols - x,
            {
                row.push(0);
                x = x + 1;
            }
            states.push(row);
            y = y + 1;
        }
        let sim = HexConwaySimulation {
            geo,
            states,
            birth: vstd::slice::slice_to_vec(birth),
            stay: vstd::slice::slice_to_vec(stay),
        };
        proof {
            assert forall|y: int| 0 <= y < geo.rows implies (#[trigger] sim.grid()[y]).len()
                == geo.cols by {
                lemma_grid_row(sim.states, y);
            }
            assert forall|y: int, x: int|
                0 <= y < geo.rows && 0 <= x < geo.cols implies #[trigger] sim.grid()[y][x] == 0 by {
                lemma_grid_row(sim.states, y);
            }
        }
        sim
    }

    /// A read-only snapshot of the current generation, for a renderer to
    /// consume within one frame.
    pub fn states(&self) -> (s: &Vec<Vec<u8>>)
        ensures
            s.deep_view() == self.grid(),
    {
        &self.states
    }

    /// The state of the cell at offset (x, y); `None` exactly when the
    /// position is out of range.
    pub fn get_cell(&self, x: usize, y: usize) -> (r: Option<u8>)
        requires
            self.wf(),
        ensures
            match r {
                Some(v) => x < self.spec_geo().cols && y < self.spec_geo().rows && v
                    == self.grid()[y as int][x as int],
                None => x >= self.spec_geo().cols || y >= self.spec_geo().rows,
            },
    {
        if x < self.geo.cols && y < self.geo.rows {
            proof {
                lemma_grid_row(self.states, y as int);
            }
            Some(self.states[y][x])
        } else {
            None
        }
    }

    /// Overwrites the cell at offset (x, y), used only for external seeding.
    /// Returns false and changes nothing when the position is out of range.
    pub fn set_cell(&mut self, x: usize, y: usize, val: u8) -> (ok: bool)
        requires
            old(self).wf(),
        ensures
            final(self).wf(),
            ok == (x < old(self).spec_geo().cols && y < old(self).spec_geo().rows),
            final(self).spec_geo() == old(self).spec_geo(),
            final(self).spec_birth() == old(self).spec_birth(),
            final(self).spec_stay() == old(self).spec_stay(),
            ok ==> final(self).grid() == old(self).grid().update(
                y as int,
                old(self).grid()[y as int].update(x as int, val),
            ),
            !ok ==> final(self).grid() == old(self).grid(),
    {
        if x < self.geo.cols && y < self.geo.rows {
            proof {
                lemma_grid_row(self.states, y as int);
            }
            let mut row = self.states[y].clone();
            proof {
                assert(row@ =~= self.states@[y as int]@);
            }
            row.set(x, val);
            self.states.set(y, row);
            proof {
                assert forall|yy: int| 0 <= yy < self.states@.len() implies #[trigger] self.grid()[yy]
                    == old(self).grid().update(
                    y as int,
                    old(self).grid()[y as int].update(x as int, val),
                )[yy] by {
                    lemma_grid_row(self.states, yy);
                    lemma_grid_row(old(self).states, yy);
                }
                assert(self.grid() =~= old(self).grid().update(
                    y as int,
                    old(self).grid()[y as int].update(x as int, val),
                ));
            }
            true
        } else {
            proof {
                assert forall|yy: int| 0 <= yy < self.states@.len() implies #[trigger] self.grid()[yy]
                    == old(self).grid()[yy] by {
                }
                assert(self.grid() =~= old(self).grid());
            }
            false
        }
    }

    /// Advances one generation: the new grid is exactly
    /// `spec_hex_step_grid` of the old one, so stepping is deterministic.
    pub fn step(&mut self)
        requires
            old(self).wf(),
        ensures
            final(self).wf(),
            final(self).spec_geo() == old(self).spec_geo(),
            final(self).spec_birth() == old(self).spec_birth(),
            final(self).spec_stay() == old(self).spec_stay(),
            final(self).grid() == spec_hex_step_grid(
                old(self).grid(),
                old(self).spec_birth(),
                old(self).spec_stay(),
                old(self).spec_geo().cols as int,
                old(self).spec_geo().rows as int,
            ),
    {
        let cols = self.geo.cols;
        let rows = self.geo.rows;
        let ghost g = self.grid();
        let ghost birth_s = self.birth@;
        let ghost stay_s = self.stay@;
        let mut next: Vec<Vec<u8>> = Vec::new();
        let mut y: usize = 0;
        while y < rows
            invariant
                *self == *old(self),
                self.wf(),
                cols == self.geo.cols,
                rows == self.geo.rows,
                g == self.grid(),
                birth_s == self.birth@,
                stay_s == self.stay@,
                y <= rows,
                next@.len() == y,
                forall|yy: int|
                    0 <= yy < y ==> (#[trigger] next@[yy])@ == spec_hex_step_row(
                        g,
                        birth_s,
                        stay_s,
                        cols as int,
                        rows as int,
                        yy,
                    ),
            decreases rows - y,
        {
            let mut row: Vec<u8> = Vec::new();
            let mut x: usize = 0;
            while x < cols
                invariant
                    *self == *old(self),
                    self.wf(),
                    cols == self.geo.cols,
                    rows == self.geo.rows,
                    g == self.grid(),
                    birth_s == self.birth@,
                    stay_s == self.stay@,
                    y < rows,
                    x <= cols,
                    row@.len() == x,
                    forall|xx: int|
                        0 <= xx < x ==> #[trigger] row@[xx] == spec_hex_next_val(
                            g,
                            birth_s,
                            stay_s,
                            cols as int,
                            rows as int,
                            xx,
                            y as int,
                        ),
                decreases cols - x,
            {
                let v = self.next_cell_val(x, y);
                row.push(v);
                x = x + 1;
            }
            proof {
                assert(row@ =~= spec_hex_step_row(
                    g,
                    birth_s,
                    stay_s,
                    cols as int,
                    rows as int,
                    y as int,
                ));
            }
            next.push(row);
            y = y + 1;
        }
        self.states = next;
        proof {
            assert forall|yy: int| 0 <= yy < rows implies #[trigger] self.grid()[yy]
                == spec_hex_step_grid(g, birth_s, stay_s, cols as int, rows as int)[yy] by {
                lemma_grid_row(self.states, yy);
            }
            assert(self.grid() =~= spec_hex_step_grid(
                g,
                birth_s,
                stay_s,
                cols as int,
                rows as int,
            ));
            assert forall|yy: int| 0 <= yy < rows implies (#[trigger] self.grid()[yy]).len()
                == cols by {
                lemma_grid_row(self.states, yy);
            }
        }
    }

    /// The next value of the cell at offset (x, y), computed from the
    /// current generation.
    fn next_cell_val(&self, x: usize, y: usize) -> (v: u8)
        requires
            self.wf(),
            x < self.spec_geo().cols,
            y < self.spec_geo().rows,
        ensures
            v == spec_hex_next_val(
                self.grid(),
                self.spec_birth(),
                self.spec_stay(),
                self.spec_geo().cols as int,
                self.spec_geo().rows as int,
                x as int,
                y as int,
            ),
    {
        let alives = self.count_live_neighbours(x, y);
        proof {
            lemma_grid_row(self.states, y as int);
        }
        let cur = self.states[y][x];
        if cur > 0 {
            if rule_contains(&self.stay, alives) {
                1
            } else {
                0
            }
        } else {
            if rule_contains(&self.birth, alives) {
                1
            } else {
                0
            }
        }
    }

    /// Counts the live neighbours of the cell at offset (x, y) in the
    /// current generation.
    fn count_live_neighbours(&self, x: usize, y: usize) -> (n: u8)
        requires
            self.wf(),
            x < self.spec_geo().cols,
            y < self.spec_geo().rows,
        ensures
            n as int == spec_hex_live_count(
                self.grid(),
                self.spec_geo().cols as int,
                self.spec_geo().rows as int,
                x as int,
                y as int,
            ),
            n <= 6,
    {
        let a = OffsetCoord { x: x as isize, y: y as isize }.axial();
        let nbs = self.geo.neighbours(a);
        let ghost nbseq = spec_hex_neighbours(
            self.geo.cols as int,
            self.geo.rows as int,
            a.q as int,
            a.r as int,
        );
        proof {
            assert(nbs@ == nbseq);
            assert(nbseq.len() <= 6);
        }
        let mut alives: u8 = 0;
        let mut k: usize = 0;
        while k < nbs.len()
            invariant
                self.wf(),
                nbs@ == nbseq,
                nbseq == spec_hex_neighbours(
                    self.geo.cols as int,
                    self.geo.rows as int,
                    spec_axial_q(x as int, y as int),
                    y as int,
                ),
                -0x10000 <= spec_axial_q(x as int, y as int) <= 0x10000,
                0 <= (y as int) < self.geo.rows,
                nbseq.len() <= 6,
                k <= nbseq.len(),
                alives as int == live_nbs(self.grid(), nbseq.take(k as int)),
                alives <= k,
            decreases nbs@.len() - k,
        {
            let nb = nbs[k];
            proof {
                lemma_hex_neighbours_in_bounds(
                    self.geo.cols as int,
                    self.geo.rows as int,
                    spec_axial_q(x as int, y as int),
                    y as int,
                    k as int,
                );
            }
            let o = nb.offset();
            proof {
                lemma_grid_row(self.states, o.y as int);
            }
            if self.states[o.y as usize][o.x as usize] > 0 {
                alives = alives + 1;
            }
            proof {
                let prefix = nbseq.take(k as int + 1);
                assert(prefix.drop_last() =~= nbseq.take(k as int));
                assert(prefix.last() == nbseq[k as int]);
            }
            k = k + 1;
        }
        proof {
            assert(nbseq.take(nbseq.len() as int) =~= nbseq);
        }
        alives
    }
}

} // verus!
