//! The empire-growth variant of the hexagonal automaton.  Cell values encode
//! ownership: 0 is sea, 1 is claimable land, and n >= 2 means the cell is
//! held by empire n - 2 (value 2 doubles as the fixed border/contested
//! marker).  Land cells bordering sea become contested; other land cells
//! adopt the numerically greatest owner id among their neighbours; sea and
//! owned cells never change.  A bounded registry maps empire ids to metadata.

use vstd::prelude::*;
use vstd::string::StringExecFns;
use crate::hex_geom::{
    AxialCoord,
    HexGeometry,
    OffsetCoord,
    lemma_hex_neighbours_in_bounds,
    spec_axial_q,
    spec_hex_neighbours,
    spec_offset_x,
};
use crate::hex_conway_sim::grid_wf;

verus! {

/// Unclaimed water: never transitions.
pub const SEA: u8 = 0;

/// Claimable land: the only state that transitions.
pub const EARTH: u8 = 1;

/// The fixed border/contested marker a land cell takes when sea borders it.
pub const CONTESTED: u8 = 2;

/// The fixed capacity of the empire registry; empire id is slot index + 2.
pub const EMPIRE_SLOTS: usize = 253;

/// Metadata for one empire.
#[derive(Debug, Clone, PartialEq, Eq)]
pub struct Empire {
    pub id: u8,
    pub name: String,
}

/// Why a spawn command changed nothing: a resource-exhaustion report, not a
/// fatal error.
#[derive(Clone, Copy, Debug, PartialEq, Eq, Structural)]
pub enum SpawnError {
    NoFreeEarth,
    NoFreeSlot,
}

/// Whether any of the listed neighbour cells is sea.
pub open spec fn sea_in_nbs(g: Seq<Seq<u8>>, nbs: Seq<AxialCoord>) -> bool
    decreases nbs.len(),
{
    if nbs.len() == 0 {
        false
    } else {
        sea_in_nbs(g, nbs.drop_last()) || ({
            let n = nbs.last();
            g[n.r as int][spec_offset_x(n.q as int, n.r as int)] == SEA
        })
    }
}

/// The greatest cell value among the listed neighbours, 0 when there are
/// none.
pub open spec fn max_in_nbs(g: Seq<Seq<u8>>, nbs: Seq<AxialCoord>) -> u8
    decreases nbs.len(),
{
    if nbs.len() == 0 {
        0u8
    } else {
        let rest = max_in_nbs(g, nbs.drop_last());
        let n = nbs.last();
        let v = g[n.r as int][spec_offset_x(n.q as int, n.r as int)];
        if v > rest {
            v
        } else {
            rest
        }
    }
}

/// The next value of the cell at offset (x, y) under the empire rule: sea
/// and owned cells are terminal; a land cell bordering sea becomes the
/// contested marker, otherwise it adopts the greatest neighbouring owner id
/// when one exists, and stays land when none does.
pub open spec fn spec_empire_next_val(g: Seq<Seq<u8>>, cols: int, rows: int, x: int, y: int) -> u8 {
    if g[y][x] != EARTH {
        g[y][x]
    } else {
        let nbs = spec_hex_neighbours(cols, rows, spec_axial_q(x, y), y);
        if sea_in_nbs(g, nbs) {
            CONTESTED
        } else {
            let m = max_in_nbs(g, nbs);
            if m >= 2 {
                m
            } else {
                EARTH
            }
        }
    }
}

/// Row `y` of the next generation under the empire rule.
pub open spec fn spec_empire_step_row(g: Seq<Seq<u8>>, cols: int, rows: int, y: int) -> Seq<u8> {
    Seq::new(cols as nat, |x: int| spec_empire_next_val(g, cols, rows, x, y))
}

/// The whole next generation under the empire rule, as a function of the
/// previous one.
pub open spec fn spec_empire_step_grid(g: Seq<Seq<u8>>, cols: int, rows: int) -> Seq<Seq<u8>> {
    Seq::new(rows as nat, |y: int| spec_empire_step_row(g, cols, rows, y))
}

/// The grid after `n` empire steps.
pub open spec fn spec_empire_steps(g: Seq<Seq<u8>>, cols: int, rows: int, n: nat) -> Seq<Seq<u8>>
    decreases n,
{
    if n == 0 {
        g
    } else {
        spec_empire_step_grid(spec_empire_steps(g, cols, rows, (n - 1) as nat), cols, rows)
    }
}

/// One empire step preserves the grid shape.
pub proof fn lemma_empire_step_wf(g: Seq<Seq<u8>>, cols: int, rows: int)
    requires
        grid_wf(g, cols, rows),
        cols >= 0,
        rows >= 0,
    ensures
        grid_wf(spec_empire_step_grid(g, cols, rows), cols, rows),
{
}

/// A cell that is not land keeps its exact value across one step; in
/// particular a cell claimed by an owner id never reverts to land or sea.
pub proof fn lemma_owner_cells_stable(g: Seq<Seq<u8>>, cols: int, rows: int, x: int, y: int)
    requires
        grid_wf(g, cols, rows),
        0 <= x < cols,
        0 <= y < rows,
        g[y][x] != EARTH,
    ensures
        spec_empire_step_grid(g, cols, rows)[y][x] == g[y][x],
{
}

/// Growth is monotone: once a cell holds an owner id (or is sea), it keeps
/// that exact value through every later generation.
pub proof fn lemma_owner_never_reverts(g: Seq<Seq<u8>>, cols: int, rows: int, x: int, y: int, n: nat)
    requires
        grid_wf(g, cols, rows),
        cols >= 0,
        rows >= 0,
        0 <= x < cols,
        0 <= y < rows,
        g[y][x] != EARTH,
    ensures
        grid_wf(spec_empire_steps(g, cols, rows, n), cols, rows),
        spec_empire_steps(g, cols, rows, n)[y][x] == g[y][x],
    decreases n,
{
    if n > 0 {
        lemma_owner_never_reverts(g, cols, rows, x, y, (n - 1) as nat);
        let prev = spec_empire_steps(g, cols, rows, (n - 1) as nat);
        lemma_empire_step_wf(prev, cols, rows);
        lemma_owner_cells_stable(prev, cols, rows, x, y);
    }
}

/// Whether the grid holds any claimable land cell.
pub open spec fn has_earth(g: Seq<Seq<u8>>, cols: int, rows: int) -> bool {
    exists|x: int, y: int| 0 <= x < cols && 0 <= y < rows && g[y][x] == EARTH
}

/// Slot `i` is the first free registry slot.
pub open spec fn is_first_free(es: Seq<Option<Empire>>, i: int) -> bool {
    &&& 0 <= i < es.len()
    &&& es[i] is None
    &&& forall|j: int| 0 <= j < i ==> !((#[trigger] es[j]) is None)
}

/// Every registry slot is taken.
pub open spec fn all_slots_full(es: Seq<Option<Empire>>) -> bool {
    forall|j: int| 0 <= j < es.len() ==> !((#[trigger] es[j]) is None)
}

/// The decimal digit character for `d`.
pub open spec fn spec_digit(d: int) -> char {
    if d == 0 {
        '0'
    } else if d == 1 {
        '1'
    } else if d == 2 {
        '2'
    } else if d == 3 {
        '3'
    } else if d == 4 {
        '4'
    } else if d == 5 {
        '5'
    } else if d == 6 {
        '6'
    } else if d == 7 {
        '7'
    } else if d == 8 {
        '8'
    } else {
        '9'
    }
}

/// The decimal digit string of a nonnegative number, most significant digit
/// first.
pub open spec fn spec_decimal(n: int) -> Seq<char>
    decreases n,
{
    if n < 10 {
        seq![spec_digit(n)]
    } else {
        spec_decimal(n / 10) + seq![spec_digit(n % 10)]
    }
}

/// The display name given to a freshly spawned empire.
pub open spec fn spec_empire_name(id: int) -> Seq<char> {
    "Empire "@ + spec_decimal(id)
}

/// The one-character string of a decimal digit.
fn digit_str(d: u8) -> (s: &'static str)
    requires
        d < 10,
    ensures
        s@ == seq![spec_digit(d as int)],
{
    proof {
        reveal_strlit("0");
        reveal_strlit("1");
        reveal_strlit("2");
        reveal_strlit("3");
        reveal_strlit("4");
        reveal_strlit("5");
        reveal_strlit("6");
        reveal_strlit("7");
        reveal_strlit("8");
        reveal_strlit("9");
    }
    let s = if d == 0 {
        "0"
    } else if d == 1 {
        "1"
    } else if d == 2 {
        "2"
    } else if d == 3 {
        "3"
    } else if d == 4 {
        "4"
    } else if d == 5 {
        "5"
    } else if d == 6 {
        "6"
    } else if d == 7 {
        "7"
    } else if d == 8 {
        "8"
    } else {
        "9"
    };
    proof {
        assert(s@ =~= seq![spec_digit(d as int)]);
    }
    s
}

/// Builds the display name "Empire <id>" in decimal.
fn empire_name(id: u8) -> (s: String)
    ensures
        s@ == spec_empire_name(id as int),
{
    proof {
        reveal_strlit("Empire ");
    }
    let mut s = String::new();
    s.append("Empire ");
    if id >= 100 {
        s.append(digit_str((id / 10) / 10));
    }
    if id >= 10 {
        s.append(digit_str((id / 10) % 10));
    }
    s.append(digit_str(id % 10));
    proof {
        let n = id as int;
        if n < 10 {
            assert(spec_decimal(n) == seq![spec_digit(n)]);
            assert(n % 10 == n);
        } else if n < 100 {
            assert(spec_decimal(n) == spec_decimal(n / 10) + seq![spec_digit(n % 10)]);
            assert(n / 10 < 10);
            assert(spec_decimal(n / 10) == seq![spec_digit(n / 10)]);
            assert((n / 10) % 10 == n / 10);
        } else {
            assert(spec_decimal(n) == spec_decimal(n / 10) + seq![spec_digit(n % 10)]);
            assert(10 <= n / 10 < 26);
            assert(spec_decimal(n / 10) == spec_decimal((n / 10) / 10) + seq![
                spec_digit((n / 10) % 10),
            ]);
            assert((n / 10) / 10 < 10);
            assert(spec_decimal((n / 10) / 10) == seq![spec_digit((n / 10) / 10)]);
        }
        assert(s@ =~= spec_empire_name(id as int));
    }
    s
}

/// Relies on rand::rng to hand back the process's thread-local generator.
#[verifier::external_body]
fn fresh_rng() -> rand::rngs::ThreadRng {
    rand::rng()
}

#[verifier::external_type_specification]
#[verifier::external_body]
pub struct ExThreadRng(rand::rngs::ThreadRng);

/// Relies on rand::Rng::random_range: for the nonempty range 0..n it returns
/// a value inside that range (and panics only on an empty range, which the
/// precondition rules out).  Nothing more is assumed of the sample.
#[verifier::external_body]
fn random_below(rng: &mut rand::rngs::ThreadRng, n: usize) -> (r: usize)
    requires
        n >= 1,
    ensures
        r < n,
{
    rand::Rng::random_range(rng, 0..n)
}

/// A row of a nested vector, seen through the nested view.
proof fn lemma_grid_row(s: Vec<Vec<u8>>, i: int)
    requires
        0 <= i < s@.len(),
    ensures
        s.deep_view()[i] == s@[i]@,
{
    assert(s.deep_view()[i] =~= s@[i]@);
}

/// The empire-growth simulation: a hexagonal grid of ownership states plus
/// a fixed-capacity registry of empires.  Entries are created on spawn
/// commands and never removed.
pub struct HexEmpireSimulation<'a> {
    geo: &'a HexGeometry,
    states: Vec<Vec<u8>>,
    empires: Vec<Option<Empire>>,
}

impl<'a> HexEmpireSimulation<'a> {
    pub closed spec fn spec_geo(&self) -> &'a HexGeometry {
        self.geo
    }

    /// The current generation, one sequence of cell values per row.
    pub closed spec fn grid(&self) -> Seq<Seq<u8>> {
        self.states.deep_view()
    }

    /// The registry: slot `i` holds the metadata of empire `i + 2`.
    pub closed spec fn spec_empires(&self) -> Seq<Option<Empire>> {
        self.empires@
    }

    pub closed spec fn wf(&self) -> bool {
        &&& self.geo.wf()
        &&& grid_wf(self.grid(), self.geo.cols as int, self.geo.rows as int)
        &&& self.empires@.len() == EMPIRE_SLOTS
    }

    /// A fresh simulation over an externally supplied initial grid (so that
    /// terrain generation stays outside the deterministic core), with an
    /// empty registry.
    pub fn new(geo: &'a HexGeometry, initial: Vec<Vec<u8>>) -> (sim: Self)
        requires
            geo.wf(),
            grid_wf(initial.deep_view(), geo.cols as int, geo.rows as int),
        ensures
            sim.wf(),
            sim.spec_geo() == geo,
            sim.grid() == initial.deep_view(),
            sim.spec_empires().len() == EMPIRE_SLOTS,
            forall|i: int| 0 <= i < EMPIRE_SLOTS ==> (#[trigger] sim.spec_empires()[i]) is None,
    {
        let mut empires: Vec<Option<Empire>> = Vec::new();
        let mut i: usize = 0;
        while i < EMPIRE_SLOTS
            invariant
                i <= EMPIRE_SLOTS,
                empires@.len() == i,
                forall|j: int| 0 <= j < i ==> (#[trigger] empires@[j]) is None,
            decreases EMPIRE_SLOTS - i,
        {
            empires.push(None);
            i = i + 1;
        }
        HexEmpireSimulation { geo, states: initial, empires }
    }

    /// A read-only snapshot of the current generation, for a renderer to
    /// consume within one frame.
    pub fn states(&self) -> (s: &Vec<Vec<u8>>)
        ensures
            s.deep_view() == self.grid(),
    {
        &self.states
    }

    /// The state of the cell at offset (x, y); `None` exactly when the
    /// position is out of range.
    pub fn get_cell(&self, x: usize, y: usize) -> (r: Option<u8>)
        requires
            self.wf(),
        ensures
            match r {
                Some(v) => x < self.spec_geo().cols && y < self.spec_geo().rows && v
                    == self.grid()[y as int][x as int],
                None => x >= self.spec_geo().cols || y >= self.spec_geo().rows,
            },
    {
        if x < self.geo.cols && y < self.geo.rows {
            proof {
                lemma_grid_row(self.states, y as int);
            }
            Some(self.states[y][x])
        } else {
            None
        }
    }

    /// The registry entry in slot `idx` (empire id `idx + 2`); `None` when
    /// the slot is out of range or still free.
    pub fn empire(&self, idx: usize) -> (r: Option<&Empire>)
        requires
            self.wf(),
        ensures
            match r {
                Some(e) => idx < EMPIRE_SLOTS && self.spec_empires()[idx as int] == Some(*e),
                None => idx >= EMPIRE_SLOTS || self.spec_empires()[idx as int] is None,
            },
    {
        if idx < self.empires.len() {
            match &self.empires[idx] {
                Some(e) => Some(e),
                None => None,
            }
        } else {
            None
        }
    }

    /// Advances one generation: the new grid is exactly
    /// `spec_empire_step_grid` of the old one; the registry is untouched.
    pub fn step(&mut self)
        requires
            old(self).wf(),
        ensures
            final(self).wf(),
            final(self).spec_geo() == old(self).spec_geo(),
            final(self).spec_empires() == old(self).spec_empires(),
            final(self).grid() == spec_empire_step_grid(
                old(self).grid(),
                old(self).spec_geo().cols as int,
                old(self).spec_geo().rows as int,
            ),
    {
        let cols = self.geo.cols;
        let rows = self.geo.rows;
        let ghost g = self.grid();
        let mut next: Vec<Vec<u8>> = Vec::new();
        let mut y: usize = 0;
        while y < rows
            invariant
                *self == *old(self),
                self.wf(),
                cols == self.geo.cols,
                rows == self.geo.rows,
                g == self.grid(),
                y <= rows,
                next@.len() == y,
                forall|yy: int|
                    0 <= yy < y ==> (#[trigger] next@[yy])@ == spec_empire_step_row(
                        g,
                        cols as int,
                        rows as int,
                        yy,
                    ),
            decreases rows - y,
        {
            let mut row: Vec<u8> = Vec::new();
            let mut x: usize = 0;
            while x < cols
                invariant
                    *self == *old(self),
                    self.wf(),
                    cols == self.geo.cols,
                    rows == self.geo.rows,
                    g == self.grid(),
                    y < rows,
                    x <= cols,
                    row@.len() == x,
                    forall|xx: int|
                        0 <= xx < x ==> #[trigger] row@[xx] == spec_empire_next_val(
                            g,
                            cols as int,
                            rows as int,
                            xx,
                            y as int,
                        ),
                decreases cols - x,
            {
                let v = self.next_cell_val(x, y);
                row.push(v);
                x = x + 1;
            }
            proof {
                assert(row@ =~= spec_empire_step_row(g, cols as int, rows as int, y as int));
            }
            next.push(row);
            y = y + 1;
        }
        self.states = next;
        proof {
            assert forall|yy: int| 0 <= yy < rows implies #[trigger] self.grid()[yy]
                == spec_empire_step_grid(g, cols as int, rows as int)[yy] by {
                lemma_grid_row(self.states, yy);
            }
            assert(self.grid() =~= spec_empire_step_grid(g, cols as int, rows as int));
            assert forall|yy: int| 0 <= yy < rows implies (#[trigger] self.grid()[yy]).len()
                == cols by {
                lemma_grid_row(self.states, yy);
            }
        }
    }

    /// The next value of the cell at offset (x, y) under the empire rule.
    fn next_cell_val(&self, x: usize, y: usize) -> (v: u8)
        requires
            self.wf(),
            x < self.spec_geo().cols,
            y < self.spec_geo().rows,
        ensures
            v == spec_empire_next_val(
                self.grid(),
                self.spec_geo().cols as int,
                self.spec_geo().rows as int,
                x as int,
                y as int,
            ),
    {
        proof {
            lemma_grid_row(self.states, y as int);
        }
        let cur = self.states[y][x];
        if cur != EARTH {
            return cur;
        }
        let (saw_sea, maxv) = self.scan_neighbours(x, y);
        if saw_sea {
            CONTESTED
        } else if maxv >= 2 {
            maxv
        } else {
            EARTH
        }
    }

    /// Scans the neighbours of the cell at offset (x, y): whether any is
    /// sea, and the greatest cell value among them.
    fn scan_neighbours(&self, x: usize, y: usize) -> (r: (bool, u8))
        requires
            self.wf(),
            x < self.spec_geo().cols,
            y < self.spec_geo().rows,
        ensures
            ({
                let nbs = spec_hex_neighbours(
                    self.spec_geo().cols as int,
                    self.spec_geo().rows as int,
                    spec_axial_q(x as int, y as int),
                    y as int,
                );
                r.0 == sea_in_nbs(self.grid(), nbs) && r.1 == max_in_nbs(self.grid(), nbs)
            }),
    {
        let a = OffsetCoord { x: x as isize, y: y as isize }.axial();
        let nbs = self.geo.neighbours(a);
        let ghost nbseq = spec_hex_neighbours(
            self.geo.cols as int,
            self.geo.rows as int,
            a.q as int,
            a.r as int,
        );
        let mut saw_sea = false;
        let mut maxv: u8 = 0;
        let mut k: usize = 0;
        while k < nbs.len()
            invariant
                self.wf(),
                nbs@ == nbseq,
                nbseq == spec_hex_neighbours(
                    self.geo.cols as int,
                    self.geo.rows as int,
                    spec_axial_q(x as int, y as int),
                    y as int,
                ),
                -0x10000 <= spec_axial_q(x as int, y as int) <= 0x10000,
                0 <= (y as int) < self.geo.rows,
                k <= nbseq.len(),
                saw_sea == sea_in_nbs(self.grid(), nbseq.take(k as int)),
                maxv == max_in_nbs(self.grid(), nbseq.take(k as int)),
            decreases nbs@.len() - k,
        {
            let nb = nbs[k];
            proof {
                lemma_hex_neighbours_in_bounds(
                    self.geo.cols as int,
                    self.geo.rows as int,
                    spec_axial_q(x as int, y as int),
                    y as int,
                    k as int,
                );
            }
            let o = nb.offset();
            proof {
                lemma_grid_row(self.states, o.y as int);
            }
            let v = self.states[o.y as usize][o.x as usize];
            if v == SEA {
                saw_sea = true;
            }
            if v > maxv {
                maxv = v;
            }
            proof {
                let prefix = nbseq.take(k as int + 1);
                assert(prefix.drop_last() =~= nbseq.take(k as int));
                assert(prefix.last() == nbseq[k as int]);
            }
            k = k + 1;
        }
        proof {
            assert(nbseq.take(nbseq.len() as int) =~= nbseq);
        }
        (saw_sea, maxv)
    }

    /// Searches for a claimable land cell: a bounded number of random
    /// samples first, then an exhaustive scan with a random pick among the
    /// hits.  Returns `None` exactly when the grid has no land at all.
    fn find_free_earth(&self) -> (r: Option<(usize, usize)>)
        requires
            self.wf(),
        ensures
            match r {
                Some(p) => p.0 < self.spec_geo().cols && p.1 < self.spec_geo().rows
                    && self.grid()[p.1 as int][p.0 as int] == EARTH,
                None => !has_earth(
                    self.grid(),
                    self.spec_geo().cols as int,
                    self.spec_geo().rows as int,
                ),
            },
    {
        let cols = self.geo.cols;
        let rows = self.geo.rows;
        if cols == 0 || rows == 0 {
            return None;
        }
        let mut rng = fresh_rng();
        let mut attempt: usize = 0;
        while attempt < 100
            invariant
                self.wf(),
                cols == self.geo.cols,
                rows == self.geo.rows,
                cols >= 1,
                rows >= 1,
            decreases 100 - attempt,
        {
            let x = random_below(&mut rng, cols);
            let y = random_below(&mut rng, rows);
            proof {
                lemma_grid_row(self.states, y as int);
            }
            if self.states[y][x] == EARTH {
                return Some((x, y));
            }
            attempt = attempt + 1;
        }
        // Fall back to an exhaustive scan when random sampling found nothing.
        let mut earth_cells: Vec<(usize, usize)> = Vec::new();
        let mut y: usize = 0;
        while y < rows
            invariant
                self.wf(),
                cols == self.geo.cols,
                rows == self.geo.rows,
                y <= rows,
                forall|k: int|
                    0 <= k < earth_cells@.len() ==> {
                        let p = #[trigger] earth_cells@[k];
                        p.0 < cols && p.1 < rows && self.grid()[p.1 as int][p.0 as int] == EARTH
                    },
                earth_cells@.len() == 0 ==> forall|xx: int, yy: int|
                    0 <= xx < cols && 0 <= yy < y ==> #[trigger] self.grid()[yy][xx] != EARTH,
            decreases rows - y,
        {
            let mut x: usize = 0;
            while x < cols
                invariant
                    self.wf(),
                    cols == self.geo.cols,
                    rows == self.geo.rows,
                    y < rows,
                    x <= cols,
                    forall|k: int|
                        0 <= k < earth_cells@.len() ==> {
                            let p = #[trigger] earth_cells@[k];
                            p.0 < cols && p.1 < rows && self.grid()[p.1 as int][p.0 as int]
                                == EARTH
                        },
                    earth_cells@.len() == 0 ==> forall|xx: int, yy: int|
                        (0 <= xx < cols && 0 <= yy < y) || (0 <= xx < x && yy == y)
                            ==> #[trigger] self.grid()[yy][xx] != EARTH,
                decreases cols - x,
            {
                proof {
                    lemma_grid_row(self.states, y as int);
                }
                if self.states[y][x] == EARTH {
                    earth_cells.push((x, y));
                }
                x = x + 1;
            }
            y = y + 1;
        }
        if earth_cells.len() > 0 {
            let idx = random_below(&mut rng, earth_cells.len());
            let p = earth_cells[idx];
            Some(p)
        } else {
            proof {
                assert forall|xx: int, yy: int|
                    0 <= xx < cols && 0 <= yy < rows implies #[trigger] self.grid()[yy][xx]
                    != EARTH by {}
            }
            None
        }
    }

    /// Spawns a new empire on a random land cell: claims the cell with a
    /// fresh id taken from the first free registry slot.  When no land cell
    /// exists, or no slot is free, reports the condition and changes
    /// nothing.
    pub fn interact_new_random_empire(&mut self) -> (r: Result<u8, SpawnError>)
        requires
            old(self).wf(),
        ensures
            final(self).wf(),
            final(self).spec_geo() == old(self).spec_geo(),
            match r {
                Result::Err(e) => {
                    &&& final(self).grid() == old(self).grid()
                    &&& final(self).spec_empires() == old(self).spec_empires()
                    &&& (e == SpawnError::NoFreeEarth <==> !has_earth(
                        old(self).grid(),
                        old(self).spec_geo().cols as int,
                        old(self).spec_geo().rows as int,
                    ))
                    &&& e == SpawnError::NoFreeSlot ==> all_slots_full(old(self).spec_empires())
                },
                Result::Ok(id) => {
                    &&& exists|slot: int|
                        {
                            &&& is_first_free(old(self).spec_empires(), slot)
                            &&& id == slot + 2
                            &&& exists|e: Empire|
                                e.id == id && e.name@ == spec_empire_name(id as int)
                                    && final(self).spec_empires() == old(
                                    self,
                                ).spec_empires().update(slot, Some(e))
                        }
                    &&& exists|x: int, y: int|
                        {
                            &&& 0 <= x < old(self).spec_geo().cols
                            &&& 0 <= y < old(self).spec_geo().rows
                            &&& old(self).grid()[y][x] == EARTH
                            &&& final(self).grid() == old(self).grid().update(
                                y,
                                old(self).grid()[y].update(x, id),
                            )
                        }
                },
            },
    {
        let found = self.find_free_earth();
        match found {
            None => Err(SpawnError::NoFreeEarth),
            Some((x, y)) => {
                // The cell exists, so the grid has land; now look for a slot.
                let mut idx: usize = 0;
                let n = self.empires.len();
                while idx < n
                    invariant
                        *self == *old(self),
                        self.wf(),
                        n == EMPIRE_SLOTS,
                        idx <= n,
                        x < self.spec_geo().cols,
                        y < self.spec_geo().rows,
                        self.grid()[y as int][x as int] == EARTH,
                        forall|j: int| 0 <= j < idx ==> !((#[trigger] self.empires@[j]) is None),
                    decreases n - idx,
                {
                    let free = match &self.empires[idx] {
                        None => true,
                        Some(_) => false,
                    };
                    if free {
                        let id = (idx as u8) + 2;
                        let name = empire_name(id);
                        let e = Empire { id, name };
                        let ghost we = e;
                        self.empires.set(idx, Some(e));
                        proof {
                            lemma_grid_row(self.states, y as int);
                        }
                        let mut row = self.states[y].clone();
                        proof {
                            assert(row@ =~= old(self).grid()[y as int]);
                        }
                        row.set(x, id);
                        self.states.set(y, row);
                        proof {
                            assert forall|yy: int|
                                0 <= yy < self.states@.len() implies #[trigger] self.grid()[yy]
                                == old(self).grid().update(
                                y as int,
                                old(self).grid()[y as int].update(x as int, id),
                            )[yy] by {
                                lemma_grid_row(self.states, yy);
                                lemma_grid_row(old(self).states, yy);
                            }
                            assert(self.grid() =~= old(self).grid().update(
                                y as int,
                                old(self).grid()[y as int].update(x as int, id),
                            ));
                            let es0 = old(self).spec_empires();
                            assert(is_first_free(es0, idx as int));
                            assert(we.id == id && we.name@ == spec_empire_name(id as int));
                            assert(self.empires@ == es0.update(idx as int, Some(we)));
                            assert(exists|slot: int|
                                {
                                    &&& is_first_free(es0, slot)
                                    &&& id == slot + 2
                                    &&& exists|e2: Empire|
                                        e2.id == id && e2.name@ == spec_empire_name(id as int)
                                            && self.empires@ == es0.update(slot, Some(e2))
                                }) by {
                                assert(exists|e2: Empire|
                                    e2.id == id && e2.name@ == spec_empire_name(id as int)
                                        && self.empires@ == es0.update(idx as int, Some(e2))) by {
                                    assert(we.id == id && we.name@ == spec_empire_name(id as int)
                                        && self.empires@ == es0.update(idx as int, Some(we)));
                                }
                            }
                            assert(exists|xx: int, yy: int|
                                {
                                    &&& 0 <= xx < old(self).spec_geo().cols
                                    &&& 0 <= yy < old(self).spec_geo().rows
                                    &&& old(self).grid()[yy][xx] == EARTH
                                    &&& self.grid() == old(self).grid().update(
                                        yy,
                                        old(self).grid()[yy].update(xx, id),
                                    )
                                }) by {
                                assert(0 <= (x as int) < old(self).spec_geo().cols && 0 <= (
                                y as int) < old(self).spec_geo().rows && old(self).grid()[y as int][
                                    x as int] == EARTH && self.grid() == old(self).grid().update(
                                    y as int,
                                    old(self).grid()[y as int].update(x as int, id),
                                ));
                            }
                        }
                        return Ok(id);
                    }
                    idx = idx + 1;
                }
                proof {
                    assert(has_earth(
                        self.grid(),
                        self.spec_geo().cols as int,
                        self.spec_geo().rows as int,
                    )) by {
                        assert(self.grid()[y as int][x as int] == EARTH);
                    }
                }
                Err(SpawnError::NoFreeSlot)
            },
        }
    }

    /// The empire holding the cell at the given axial coordinates: `None`
    /// when the coordinates fall outside the grid, the cell is sea or
    /// unclaimed land, or the registry slot for its owner is free.
    pub fn get_empire_by_axial(&self, a: AxialCoord) -> (r: Option<&Empire>)
        requires
            self.wf(),
            -0x1000_0000 <= a.q <= 0x1000_0000,
            -0x1000_0000 <= a.r <= 0x1000_0000,
        ensures
            ({
                let ox = spec_offset_x(a.q as int, a.r as int);
                let oy = a.r as int;
                let inside = 0 <= ox < self.spec_geo().cols && 0 <= oy < self.spec_geo().rows;
                match r {
                    Some(e) => inside && self.grid()[oy][ox] > EARTH
                        && self.spec_empires()[self.grid()[oy][ox] - 2] == Some(*e),
                    None => !inside || self.grid()[oy][ox] <= EARTH || self.grid()[oy][ox] - 2
                        >= EMPIRE_SLOTS || self.spec_empires()[self.grid()[oy][ox] - 2] is None,
                }
            }),
    {
        let o = a.offset();
        if o.x < 0 || o.y < 0 {
            return None;
        }
        let ox = o.x as usize;
        let oy = o.y as usize;
        if ox >= self.geo.cols || oy >= self.geo.rows {
            return None;
        }
        proof {
            lemma_grid_row(self.states, oy as int);
        }
        let state = self.states[oy][ox];
        if state > EARTH {
            let idx = (state - 2) as usize;
            if idx < self.empires.len() {
                match &self.empires[idx] {
                    Some(e) => Some(e),
                    None => None,
                }
            } else {
                None
            }
        } else {
            None
        }
    }
}

} // verus!
