//! Hexagonal coordinate system: pointy-top hexagons in "odd-r" horizontal
//! offset layout.  Every cell is identified by axial coordinates (q, r);
//! offset coordinates (column x, row y) are the storage-facing view, and the
//! two are a lossless bijection for the fixed row-parity convention.

use vstd::prelude::*;

verus! {

/// Coordinates handled by the conversions stay below this magnitude, so that
/// every intermediate value fits in `isize` even on 32-bit targets.
pub const COORD_LIMIT: isize = 0x1000_0000;

pub open spec fn in_coord_range(v: int) -> bool {
    -(COORD_LIMIT as int) <= v <= COORD_LIMIT as int
}

/// Row parity: 0 for even rows, 1 for odd rows (also for negative rows).
pub open spec fn spec_parity(v: int) -> int {
    if v % 2 == 0 {
        0
    } else {
        1
    }
}

/// Axial column of the cell at offset coordinates (x, y).
pub open spec fn spec_axial_q(x: int, y: int) -> int {
    x - (y - spec_parity(y)) / 2
}

/// Offset column of the cell at axial coordinates (q, r).
pub open spec fn spec_offset_x(q: int, r: int) -> int {
    q + (r - spec_parity(r)) / 2
}

/// Linear identifier of a cell in a row-major scan of the grid.
#[derive(Clone, Copy, Debug, PartialEq, Eq, Structural, Hash)]
pub struct SeqID(pub usize);

/// Column/row pair in "odd-r" horizontal layout.
#[derive(Clone, Copy, Debug, PartialEq, Eq, Structural, Hash)]
pub struct OffsetCoord {
    pub x: isize,
    pub y: isize,
}

/// Axial coordinate pair; the third cube coordinate is derived as -q-r.
#[derive(Clone, Copy, Debug, PartialEq, Eq, Structural)]
pub struct AxialCoord {
    pub q: isize,
    pub r: isize,
}

/// Cube coordinates (q, r, s) with q + r + s == 0, used for symmetry checks.
#[derive(Clone, Copy, Debug, PartialEq, Eq, Structural)]
pub struct CubeCoord {
    pub q: isize,
    pub r: isize,
    pub s: isize,
}

impl OffsetCoord {
    pub open spec fn in_range(&self) -> bool {
        in_coord_range(self.x as int) && in_coord_range(self.y as int)
    }

    /// The axial coordinates of this offset cell.
    pub fn axial(&self) -> (a: AxialCoord)
        requires
            self.in_range(),
        ensures
            a.q == spec_axial_q(self.x as int, self.y as int),
            a.r == self.y,
    {
        let parity: isize = if self.y % 2 == 0 {
            0
        } else {
            1
        };
        let q = self.x - (self.y - parity) / 2;
        AxialCoord { q, r: self.y }
    }
}

impl AxialCoord {
    pub open spec fn in_range(&self) -> bool {
        in_coord_range(self.q as int) && in_coord_range(self.r as int)
    }

    /// The derived third cube coordinate.
    pub fn s(&self) -> (s: isize)
        requires
            self.in_range(),
        ensures
            s == -self.q - self.r,
    {
        -self.q - self.r
    }

    /// The full cube-coordinate triple of this cell.
    pub fn cube(&self) -> (c: CubeCoord)
        requires
            self.in_range(),
        ensures
            c.q == self.q,
            c.r == self.r,
            c.s == -self.q - self.r,
            c.q + c.r + c.s == 0,
    {
        CubeCoord { q: self.q, r: self.r, s: self.s() }
    }

    /// The offset coordinates of this axial cell.
    pub fn offset(&self) -> (o: OffsetCoord)
        requires
            self.in_range(),
        ensures
            o.x == spec_offset_x(self.q as int, self.r as int),
            o.y == self.r,
    {
        let parity: isize = if self.r % 2 == 0 {
            0
        } else {
            1
        };
        let x = self.q + (self.r - parity) / 2;
        OffsetCoord { x, y: self.r }
    }
}

/// Converting offset coordinates to axial and back returns the original
/// offset pair: the two conversions are a bijection for the fixed "odd-r"
/// convention.
pub proof fn lemma_offset_axial_roundtrip(x: int, y: int)
    ensures
        spec_offset_x(spec_axial_q(x, y), y) == x,
{
}

/// Converting axial coordinates to offset and back returns the original
/// axial pair: the inverse direction of the bijection.
pub proof fn lemma_axial_offset_roundtrip(q: int, r: int)
    ensures
        spec_axial_q(spec_offset_x(q, r), r) == q,
{
}

/// The hex grid distance between axial cells a and b:
/// `(|dq| + |dq + dr| + |dr|) / 2`, an exact integer.
pub open spec fn spec_hex_distance(aq: int, ar: int, bq: int, br: int) -> int {
    (vstd::math::abs(aq - bq) + vstd::math::abs(aq - bq + (ar - br)) + vstd::math::abs(ar - br))
        as int / 2
}

/// The neighbour-candidate axial cell (q, r): a one-element sequence when its
/// offset coordinates lie inside the cols x rows grid, empty otherwise.
pub open spec fn hex_nb_opt(cols: int, rows: int, q: int, r: int) -> Seq<AxialCoord> {
    if 0 <= spec_offset_x(q, r) < cols && 0 <= r < rows {
        seq![AxialCoord { q: q as isize, r: r as isize }]
    } else {
        Seq::<AxialCoord>::empty()
    }
}

/// The in-bounds neighbours of axial cell (q, r), in the fixed direction
/// order (+1,0), (+1,-1), (0,-1), (-1,0), (-1,+1), (0,+1).
pub open spec fn spec_hex_neighbours(cols: int, rows: int, q: int, r: int) -> Seq<AxialCoord> {
    hex_nb_opt(cols, rows, q + 1, r) + hex_nb_opt(cols, rows, q + 1, r - 1) + hex_nb_opt(
        cols,
        rows,
        q,
        r - 1,
    ) + hex_nb_opt(cols, rows, q - 1, r) + hex_nb_opt(cols, rows, q - 1, r + 1) + hex_nb_opt(
        cols,
        rows,
        q,
        r + 1,
    )
}

/// A bounded grid of pointy-top hexagons, cols columns by rows rows in
/// "odd-r" offset storage order.
pub struct HexGeometry {
    pub cols: usize,
    pub rows: usize,
}

impl HexGeometry {
    pub open spec fn wf(&self) -> bool {
        self.cols <= 0x8000 && self.rows <= 0x8000
    }

    pub fn new(cols: usize, rows: usize) -> (g: HexGeometry)
        requires
            cols <= 0x8000,
            rows <= 0x8000,
        ensures
            g.wf(),
            g.cols == cols,
            g.rows == rows,
    {
        HexGeometry { cols, rows }
    }

    /// The exact number of valid cells.
    pub fn size(&self) -> (r: usize)
        requires
            self.wf(),
        ensures
            r as int == self.cols * self.rows,
    {
        proof {
            assert(0 <= self.cols * self.rows <= 0x8000 * 0x8000) by (nonlinear_arith)
                requires
                    0 <= self.cols <= 0x8000,
                    0 <= self.rows <= 0x8000,
            ;
        }
        self.cols * self.rows
    }

    /// The hex grid distance between two axial cells.
    pub fn distance(&self, a: AxialCoord, b: AxialCoord) -> (d: u64)
        requires
            a.in_range(),
            b.in_range(),
        ensures
            d as int == spec_hex_distance(a.q as int, a.r as int, b.q as int, b.r as int),
    {
        let dq: i64 = a.q as i64 - b.q as i64;
        let dr: i64 = a.r as i64 - b.r as i64;
        let aq = if dq >= 0 {
            dq
        } else {
            -dq
        };
        let aqr = if dq + dr >= 0 {
            dq + dr
        } else {
            -(dq + dr)
        };
        let ar = if dr >= 0 {
            dr
        } else {
            -dr
        };
        ((aq + aqr + ar) / 2) as u64
    }

    /// Hex distance is symmetric in its two cells.
    pub proof fn lemma_distance_symmetric(aq: int, ar: int, bq: int, br: int)
        ensures
            spec_hex_distance(aq, ar, bq, br) == spec_hex_distance(bq, br, aq, ar),
    {
    }

    /// All six axial neighbour candidates of `a`, filtered to the cells whose
    /// offset coordinates lie inside the grid; edge cells get fewer than six.
    pub fn neighbours(&self, a: AxialCoord) -> (r: Vec<AxialCoord>)
        requires
            self.wf(),
            -0x10000 <= a.q <= 0x10000,
            -0x10000 <= a.r <= 0x10000,
        ensures
            r@ == spec_hex_neighbours(self.cols as int, self.rows as int, a.q as int, a.r as int),
    {
        let mut r: Vec<AxialCoord> = Vec::new();
        self.push_hex_neighbour(&mut r, a.q + 1, a.r);
        self.push_hex_neighbour(&mut r, a.q + 1, a.r - 1);
        self.push_hex_neighbour(&mut r, a.q, a.r - 1);
        self.push_hex_neighbour(&mut r, a.q - 1, a.r);
        self.push_hex_neighbour(&mut r, a.q - 1, a.r + 1);
        self.push_hex_neighbour(&mut r, a.q, a.r + 1);
        proof {
            assert(r@ =~= spec_hex_neighbours(
                self.cols as int,
                self.rows as int,
                a.q as int,
                a.r as int,
            ));
        }
        r
    }

    /// Appends the axial candidate (q, r) when its offset coordinates lie
    /// inside the grid.
    fn push_hex_neighbour(&self, r: &mut Vec<AxialCoord>, cq: isize, cr: isize)
        requires
            self.wf(),
            -0x20000 <= cq <= 0x20000,
            -0x20000 <= cr <= 0x20000,
        ensures
            final(r)@ == old(r)@ + hex_nb_opt(
                self.cols as int,
                self.rows as int,
                cq as int,
                cr as int,
            ),
    {
        let cand = AxialCoord { q: cq, r: cr };
        let o = cand.offset();
        if 0 <= o.x && o.x < self.cols as isize && 0 <= o.y && o.y < self.rows as isize {
            r.push(cand);
            proof {
                assert(r@ =~= old(r)@ + hex_nb_opt(
                    self.cols as int,
                    self.rows as int,
                    cq as int,
                    cr as int,
                ));
            }
        } else {
            proof {
                assert(r@ =~= old(r)@ + hex_nb_opt(
                    self.cols as int,
                    self.rows as int,
                    cq as int,
                    cr as int,
                ));
            }
        }
    }
}

/// A candidate that passes the offset-bounds filter lies inside the grid.
proof fn lemma_hex_nb_opt_in_bounds(cols: int, rows: int, q: int, r: int)
    requires
        -0x20000 <= q <= 0x20000,
        -0x20000 <= r <= 0x20000,
    ensures
        forall|j: int|
            0 <= j < hex_nb_opt(cols, rows, q, r).len() ==> {
                let n = #[trigger] hex_nb_opt(cols, rows, q, r)[j];
                &&& 0 <= spec_offset_x(n.q as int, n.r as int) < cols
                &&& 0 <= n.r < rows
            },
{
}

/// Every cell enumerated by the hex neighbour filter has offset coordinates
/// inside the cols x rows grid.
pub proof fn lemma_hex_neighbours_in_bounds(cols: int, rows: int, q: int, r: int, j: int)
    requires
        -0x10000 <= q <= 0x10000,
        -0x10000 <= r <= 0x10000,
        0 <= j < spec_hex_neighbours(cols, rows, q, r).len(),
    ensures
        ({
            let n = spec_hex_neighbours(cols, rows, q, r)[j];
            &&& 0 <= spec_offset_x(n.q as int, n.r as int) < cols
            &&& 0 <= n.r < rows
        }),
{
    lemma_hex_nb_opt_in_bounds(cols, rows, q + 1, r);
    lemma_hex_nb_opt_in_bounds(cols, rows, q + 1, r - 1);
    lemma_hex_nb_opt_in_bounds(cols, rows, q, r - 1);
    lemma_hex_nb_opt_in_bounds(cols, rows, q - 1, r);
    lemma_hex_nb_opt_in_bounds(cols, rows, q - 1, r + 1);
    lemma_hex_nb_opt_in_bounds(cols, rows, q, r + 1);
}

} // verus!
