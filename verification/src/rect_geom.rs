//! Rectangular geometry: a finite W x H grid addressed by the linear
//! identifier `y * W + x`, with 8-connectivity neighbour enumeration and a
//! squared-Euclidean distance over cell centres.
//!
//! Pixel-space quantities (the grid origin and the cell size) are integers in
//! the caller's unit of choice.  Cell centres sit on half-unit boundaries, so
//! the centre and rectangle accessors report *doubled* coordinates: a result
//! `v` stands for the position `v / 2` in the caller's unit.  This keeps every
//! value exact without floating point.

use vstd::prelude::*;
use vstd::arithmetic::div_mod::lemma_fundamental_div_mod_converse;
use crate::geometry::Geometry;

verus! {

/// An integer 2-vector in the caller's pixel unit.
#[derive(Clone, Copy, Debug, PartialEq, Eq, Structural)]
pub struct Vec2i {
    pub x: i64,
    pub y: i64,
}

/// An axis-aligned rectangle in doubled pixel units.
#[derive(Clone, Copy, Debug, PartialEq, Eq, Structural)]
pub struct Recti {
    pub x: i64,
    pub y: i64,
    pub width: i64,
    pub height: i64,
}

/// The column and row counts of the grid.
#[derive(Clone, Copy, Debug, PartialEq, Eq, Structural)]
pub struct InnerNCells {
    pub x: usize,
    pub y: usize,
}

/// Linear identifier of a rectangular cell: `y * W + x`.
#[derive(Clone, Copy, Debug, PartialEq, Eq, Structural, PartialOrd, Ord, Hash)]
pub struct RectGeoID(pub usize);

/// The linear identifier of the cell in column `x`, row `y` of a grid that is
/// `w` columns wide.
pub open spec fn spec_cell2id(w: int, x: int, y: int) -> int {
    y * w + x
}

/// The column and row of the cell with linear identifier `i` in a grid that
/// is `w` columns wide.
pub open spec fn spec_id2cell(w: int, i: int) -> (int, int) {
    (i % w, i / w)
}

/// The neighbour-candidate cell (x, y): its one-element identifier sequence
/// when it lies inside the w x h grid, and the empty sequence otherwise.
pub open spec fn rect_nb_opt(w: int, h: int, x: int, y: int) -> Seq<int> {
    if 0 <= x < w && 0 <= y < h {
        seq![y * w + x]
    } else {
        Seq::<int>::empty()
    }
}

/// The in-bounds neighbours of cell (x, y) under 8-connectivity, in the fixed
/// enumeration order: dx from -1 to 1, then dy from -1 to 1, skipping (0, 0).
pub open spec fn rect_neighbour_ids(w: int, h: int, x: int, y: int) -> Seq<int> {
    rect_nb_opt(w, h, x - 1, y - 1) + rect_nb_opt(w, h, x - 1, y) + rect_nb_opt(w, h, x - 1, y + 1)
        + rect_nb_opt(w, h, x, y - 1) + rect_nb_opt(w, h, x, y + 1) + rect_nb_opt(
        w,
        h,
        x + 1,
        y - 1,
    ) + rect_nb_opt(w, h, x + 1, y) + rect_nb_opt(w, h, x + 1, y + 1)
}

/// The linear indices denoted by a sequence of rectangular identifiers.
pub open spec fn rect_ids_of(s: Seq<RectGeoID>) -> Seq<int> {
    s.map_values(|g: RectGeoID| g.0 as int)
}

/// A finite rectangular grid with a centred origin and per-cell pixel size.
pub struct RectGeometry {
    pub geocenter: Vec2i,
    pub cells: InnerNCells,
    pub celsize: Vec2i,
}

impl RectGeometry {
    /// Bounds on the parameters under which all derived arithmetic stays
    /// exact in the machine types.
    pub open spec fn params_ok(center: Vec2i, xcells: int, ycells: int, csize: Vec2i) -> bool {
        &&& 1 <= xcells <= 0x8000
        &&& 1 <= ycells <= 0x8000
        &&& 0 <= csize.x <= 0x8000
        &&& 0 <= csize.y <= 0x8000
        &&& -0x1_0000_0000 <= center.x <= 0x1_0000_0000
        &&& -0x1_0000_0000 <= center.y <= 0x1_0000_0000
    }

    pub fn new(geocenter: Vec2i, xcells: usize, ycells: usize, celsize: Vec2i) -> (g:
        RectGeometry)
        requires
            Self::params_ok(geocenter, xcells as int, ycells as int, celsize),
        ensures
            g.wf(),
            g.geocenter == geocenter,
            g.cells == (InnerNCells { x: xcells, y: ycells }),
            g.celsize == celsize,
    {
        RectGeometry { geocenter, cells: InnerNCells { x: xcells, y: ycells }, celsize }
    }

    /// The top-left corner of the grid in doubled units:
    /// `2 * center - cells * celsize`.
    pub open spec fn spec_start2(&self) -> (int, int) {
        (
            2 * self.geocenter.x - self.cells.x * self.celsize.x,
            2 * self.geocenter.y - self.cells.y * self.celsize.y,
        )
    }

    /// The doubled start coordinates stay well inside the `i64` range.
    proof fn lemma_start2_bounds(&self)
        requires
            self.wf(),
        ensures
            -0x3_0000_0000 <= self.spec_start2().0 <= 0x3_0000_0000,
            -0x3_0000_0000 <= self.spec_start2().1 <= 0x3_0000_0000,
    {
        assert(0 <= self.cells.x * self.celsize.x <= 0x8000 * 0x8000) by (nonlinear_arith)
            requires
                0 <= self.cells.x <= 0x8000,
                0 <= self.celsize.x <= 0x8000,
        ;
        assert(0 <= self.cells.y * self.celsize.y <= 0x8000 * 0x8000) by (nonlinear_arith)
            requires
                0 <= self.cells.y <= 0x8000,
                0 <= self.celsize.y <= 0x8000,
        ;
    }

    /// The grid's top-left corner, in doubled units (the true position is
    /// half the returned value).
    pub fn start(&self) -> (s: Vec2i)
        requires
            self.wf(),
        ensures
            s.x == self.spec_start2().0,
            s.y == self.spec_start2().1,
    {
        proof {
            assert(self.cells.x * self.celsize.x <= 0x8000 * 0x8000 && self.cells.x
                * self.celsize.x >= 0) by (nonlinear_arith)
                requires
                    0 <= self.cells.x <= 0x8000,
                    0 <= self.celsize.x <= 0x8000,
            ;
            assert(self.cells.y * self.celsize.y <= 0x8000 * 0x8000 && self.cells.y
                * self.celsize.y >= 0) by (nonlinear_arith)
                requires
                    0 <= self.cells.y <= 0x8000,
                    0 <= self.celsize.y <= 0x8000,
            ;
        }
        let sx = 2 * self.geocenter.x - (self.cells.x as i64) * self.celsize.x;
        let sy = 2 * self.geocenter.y - (self.cells.y as i64) * self.celsize.y;
        Vec2i { x: sx, y: sy }
    }

    /// The centre of the cell in column `nx`, row `ny`, in doubled units.
    pub open spec fn spec_cellcenter2(&self, nx: int, ny: int) -> (int, int) {
        (
            self.spec_start2().0 + (2 * nx + 1) * self.celsize.x,
            self.spec_start2().1 + (2 * ny + 1) * self.celsize.y,
        )
    }

    /// The centre of the cell in column `nx`, row `ny`, in doubled units (the
    /// true position is half the returned value).
    pub fn cellcenter(&self, nx: usize, ny: usize) -> (c: Vec2i)
        requires
            self.wf(),
            nx <= 0x8000,
            ny <= 0x8000,
        ensures
            c.x == self.spec_cellcenter2(nx as int, ny as int).0,
            c.y == self.spec_cellcenter2(nx as int, ny as int).1,
    {
        let s = self.start();
        proof {
            self.lemma_start2_bounds();
            assert((2 * nx + 1) * self.celsize.x <= 0x20000 * 0x8000 && (2 * nx + 1)
                * self.celsize.x >= 0) by (nonlinear_arith)
                requires
                    0 <= nx <= 0x8000,
                    0 <= self.celsize.x <= 0x8000,
            ;
            assert((2 * ny + 1) * self.celsize.y <= 0x20000 * 0x8000 && (2 * ny + 1)
                * self.celsize.y >= 0) by (nonlinear_arith)
                requires
                    0 <= ny <= 0x8000,
                    0 <= self.celsize.y <= 0x8000,
            ;
        }
        let cx = s.x + (2 * (nx as i64) + 1) * self.celsize.x;
        let cy = s.y + (2 * (ny as i64) + 1) * self.celsize.y;
        Vec2i { x: cx, y: cy }
    }

    pub fn cell2id(&self, nx: usize, ny: usize) -> (id: RectGeoID)
        requires
            self.wf(),
            nx <= 0x8000,
            ny <= 0x8000,
        ensures
            id.0 as int == spec_cell2id(self.cells.x as int, nx as int, ny as int),
    {
        proof {
            assert(ny * self.cells.x <= 0x8000 * 0x8000 && ny * self.cells.x >= 0)
                by (nonlinear_arith)
                requires
                    0 <= ny <= 0x8000,
                    0 <= self.cells.x <= 0x8000,
            ;
        }
        RectGeoID(ny * self.cells.x + nx)
    }

    pub fn id2cell(&self, id: RectGeoID) -> (c: (usize, usize))
        requires
            self.wf(),
        ensures
            c.0 as int == spec_id2cell(self.cells.x as int, id.0 as int).0,
            c.1 as int == spec_id2cell(self.cells.x as int, id.0 as int).1,
    {
        (id.0 % self.cells.x, id.0 / self.cells.x)
    }

    /// Round trip: the identifier of a valid cell decodes to the same column
    /// and row.
    pub proof fn lemma_cell_id_roundtrip(&self, x: int, y: int)
        requires
            self.wf(),
            0 <= x < self.cells.x,
            0 <= y < self.cells.y,
        ensures
            spec_id2cell(self.cells.x as int, spec_cell2id(self.cells.x as int, x, y)) == (x, y),
    {
        lemma_fundamental_div_mod_converse(y * (self.cells.x as int) + x, self.cells.x as int, y, x);
    }

    /// A valid cell's identifier lies in `[0, size())`, so identifiers index
    /// linear storage directly.
    pub proof fn lemma_cell_id_in_range(&self, x: int, y: int)
        requires
            self.wf(),
            0 <= x < self.cells.x,
            0 <= y < self.cells.y,
        ensures
            0 <= spec_cell2id(self.cells.x as int, x, y) < self.cells.x * self.cells.y,
    {
        assert(0 <= y * (self.cells.x as int) + x < self.cells.x * self.cells.y)
            by (nonlinear_arith)
            requires
                0 <= x < self.cells.x,
                0 <= y < self.cells.y,
        ;
    }

    /// The column and row of a valid identifier are themselves valid.
    pub proof fn lemma_id_cell_in_range(&self, i: int)
        requires
            self.wf(),
            0 <= i < self.cells.x * self.cells.y,
        ensures
            0 <= spec_id2cell(self.cells.x as int, i).0 < self.cells.x,
            0 <= spec_id2cell(self.cells.x as int, i).1 < self.cells.y,
    {
        let w = self.cells.x as int;
        let h = self.cells.y as int;
        vstd::arithmetic::div_mod::lemma_mod_pos_bound(i, w);
        vstd::arithmetic::div_mod::lemma_div_pos_is_pos(i, w);
        vstd::arithmetic::div_mod::lemma_fundamental_div_mod(i, w);
        assert(i / w < h) by (nonlinear_arith)
            requires
                0 <= i < w * h,
                0 < w,
                i == w * (i / w) + i % w,
                0 <= i % w < w,
        ;
    }

    /// The centre of the cell with identifier `id`, in doubled units.
    pub fn id2centercoord(&self, id: RectGeoID) -> (c: Vec2i)
        requires
            self.wf(),
            id.0 < self.cells.x * self.cells.y,
        ensures
            c.x == self.spec_cellcenter2(
                spec_id2cell(self.cells.x as int, id.0 as int).0,
                spec_id2cell(self.cells.x as int, id.0 as int).1,
            ).0,
            c.y == self.spec_cellcenter2(
                spec_id2cell(self.cells.x as int, id.0 as int).0,
                spec_id2cell(self.cells.x as int, id.0 as int).1,
            ).1,
    {
        proof {
            self.lemma_id_cell_in_range(id.0 as int);
        }
        let (nx, ny) = self.id2cell(id);
        self.cellcenter(nx, ny)
    }

    /// The screen rectangle of the cell in column `nx`, row `ny`, in doubled
    /// units.
    pub fn cell_rectangle(&self, nx: i64, ny: i64) -> (rect: Recti)
        requires
            self.wf(),
            -0x10000 <= nx <= 0x10000,
            -0x10000 <= ny <= 0x10000,
        ensures
            rect.x == self.spec_start2().0 + 2 * nx * self.celsize.x,
            rect.y == self.spec_start2().1 + 2 * ny * self.celsize.y,
            rect.width == 2 * self.celsize.x,
            rect.height == 2 * self.celsize.y,
    {
        let s = self.start();
        proof {
            self.lemma_start2_bounds();
            assert(-0x20000 * 0x8000 <= 2 * nx * self.celsize.x <= 0x20000 * 0x8000)
                by (nonlinear_arith)
                requires
                    -0x10000 <= nx <= 0x10000,
                    0 <= self.celsize.x <= 0x8000,
            ;
            assert(-0x20000 * 0x8000 <= 2 * ny * self.celsize.y <= 0x20000 * 0x8000)
                by (nonlinear_arith)
                requires
                    -0x10000 <= ny <= 0x10000,
                    0 <= self.celsize.y <= 0x8000,
            ;
        }
        Recti {
            x: s.x + 2 * nx * self.celsize.x,
            y: s.y + 2 * ny * self.celsize.y,
            width: 2 * self.celsize.x,
            height: 2 * self.celsize.y,
        }
    }
}

/// Appends the identifier of candidate cell (nx, ny) when it lies inside the
/// w x h grid; out-of-bounds candidates are omitted, never clamped.
fn push_neighbour(r: &mut Vec<RectGeoID>, w: usize, h: usize, nx: i64, ny: i64)
    requires
        1 <= w <= 0x8000,
        1 <= h <= 0x8000,
        -0x10000 <= nx <= 0x10000,
        -0x10000 <= ny <= 0x10000,
    ensures
        rect_ids_of(final(r)@) == rect_ids_of(old(r)@) + rect_nb_opt(
            w as int,
            h as int,
            nx as int,
            ny as int,
        ),
{
    if 0 <= nx && nx < w as i64 && 0 <= ny && ny < h as i64 {
        proof {
            assert(0 <= ny * w && ny * w <= 0x8000 * 0x8000) by (nonlinear_arith)
                requires
                    0 <= ny <= 0x8000,
                    0 <= w <= 0x8000,
            ;
        }
        let id = (ny as usize) * w + (nx as usize);
        r.push(RectGeoID(id));
        proof {
            assert(rect_ids_of(r@) =~= rect_ids_of(old(r)@) + rect_nb_opt(
                w as int,
                h as int,
                nx as int,
                ny as int,
            ));
        }
    } else {
        proof {
            assert(rect_ids_of(r@) =~= rect_ids_of(old(r)@) + rect_nb_opt(
                w as int,
                h as int,
                nx as int,
                ny as int,
            ));
        }
    }
}

impl Geometry for RectGeometry {
    type ID = RectGeoID;

    open spec fn wf(&self) -> bool {
        Self::params_ok(self.geocenter, self.cells.x as int, self.cells.y as int, self.celsize)
    }

    open spec fn spec_size(&self) -> int {
        self.cells.x * self.cells.y
    }

    open spec fn id_index(&self, id: RectGeoID) -> int {
        id.0 as int
    }

    open spec fn spec_neighbours(&self, i: int) -> Seq<int> {
        rect_neighbour_ids(
            self.cells.x as int,
            self.cells.y as int,
            spec_id2cell(self.cells.x as int, i).0,
            spec_id2cell(self.cells.x as int, i).1,
        )
    }

    /// Squared Euclidean distance between the two cell centres, in the
    /// caller's pixel unit squared.
    open spec fn spec_distance(&self, a: int, b: int) -> int {
        let w = self.cells.x as int;
        let dx = (spec_id2cell(w, a).0 - spec_id2cell(w, b).0) * self.celsize.x;
        let dy = (spec_id2cell(w, a).1 - spec_id2cell(w, b).1) * self.celsize.y;
        dx * dx + dy * dy
    }

    proof fn lemma_neighbours_in_bounds(&self, i: int) {
        let w = self.cells.x as int;
        let h = self.cells.y as int;
        let x = spec_id2cell(w, i).0;
        let y = spec_id2cell(w, i).1;
        assert forall|j: int| 0 <= j < self.spec_neighbours(i).len() implies 0 <= #[trigger] self
            .spec_neighbours(i)[j] < self.spec_size() by {
            let s = self.spec_neighbours(i);
            lemma_rect_neighbour_ids_in_bounds(w, h, x, y, j);
        }
    }

    proof fn lemma_distance_symmetric(&self, a: int, b: int) {
        let w = self.cells.x as int;
        let u = spec_id2cell(w, a).0 - spec_id2cell(w, b).0;
        let v = spec_id2cell(w, a).1 - spec_id2cell(w, b).1;
        let cx = self.celsize.x as int;
        let cy = self.celsize.y as int;
        assert((u * cx) * (u * cx) + (v * cy) * (v * cy) == ((-u) * cx) * ((-u) * cx) + ((-v) * cy)
            * ((-v) * cy)) by (nonlinear_arith);
        assert(spec_id2cell(w, b).0 - spec_id2cell(w, a).0 == -u);
        assert(spec_id2cell(w, b).1 - spec_id2cell(w, a).1 == -v);
    }

    fn size(&self) -> (r: usize) {
        proof {
            assert(0 <= self.cells.x * self.cells.y <= 0x8000 * 0x8000) by (nonlinear_arith)
                requires
                    0 <= self.cells.x <= 0x8000,
                    0 <= self.cells.y <= 0x8000,
            ;
        }
        self.cells.x * self.cells.y
    }

    fn id_at(&self, i: usize) -> (id: RectGeoID) {
        RectGeoID(i)
    }

    fn index_of(&self, id: RectGeoID) -> (i: usize) {
        id.0
    }

    fn neighbours(&self, id: RectGeoID) -> (r: Vec<RectGeoID>) {
        proof {
            self.lemma_id_cell_in_range(id.0 as int);
        }
        let (x, y) = self.id2cell(id);
        let xi = x as i64;
        let yi = y as i64;
        let w = self.cells.x;
        let h = self.cells.y;
        let mut r: Vec<RectGeoID> = Vec::new();
        push_neighbour(&mut r, w, h, xi - 1, yi - 1);
        push_neighbour(&mut r, w, h, xi - 1, yi);
        push_neighbour(&mut r, w, h, xi - 1, yi + 1);
        push_neighbour(&mut r, w, h, xi, yi - 1);
        push_neighbour(&mut r, w, h, xi, yi + 1);
        push_neighbour(&mut r, w, h, xi + 1, yi - 1);
        push_neighbour(&mut r, w, h, xi + 1, yi);
        push_neighbour(&mut r, w, h, xi + 1, yi + 1);
        proof {
            assert(rect_ids_of(r@) =~= self.spec_neighbours(self.id_index(id)));
            assert(r@.map_values(|n: RectGeoID| self.id_index(n)) =~= rect_ids_of(r@));
        }
        r
    }

    fn distance(&self, a: RectGeoID, b: RectGeoID) -> (r: u64) {
        proof {
            self.lemma_id_cell_in_range(a.0 as int);
            self.lemma_id_cell_in_range(b.0 as int);
        }
        let (xa, ya) = self.id2cell(a);
        let (xb, yb) = self.id2cell(b);
        let ux = xa as i64 - xb as i64;
        let uy = ya as i64 - yb as i64;
        proof {
            assert(-0x8000 * 0x8000 <= ux * self.celsize.x <= 0x8000 * 0x8000) by (nonlinear_arith)
                requires
                    -0x8000 <= ux <= 0x8000,
                    0 <= self.celsize.x <= 0x8000,
            ;
            assert(-0x8000 * 0x8000 <= uy * self.celsize.y <= 0x8000 * 0x8000) by (nonlinear_arith)
                requires
                    -0x8000 <= uy <= 0x8000,
                    0 <= self.celsize.y <= 0x8000,
            ;
        }
        let dx = ux * self.celsize.x;
        let dy = uy * self.celsize.y;
        proof {
            assert(0 <= dx * dx <= (0x8000 * 0x8000) * (0x8000 * 0x8000)) by (nonlinear_arith)
                requires
                    -0x8000 * 0x8000 <= dx <= 0x8000 * 0x8000,
            ;
            assert(0 <= dy * dy <= (0x8000 * 0x8000) * (0x8000 * 0x8000)) by (nonlinear_arith)
                requires
                    -0x8000 * 0x8000 <= dy <= 0x8000 * 0x8000,
            ;
        }
        (dx * dx + dy * dy) as u64
    }
}

/// Every identifier produced by the 8-connectivity enumeration around a
/// valid cell lies in `[0, w * h)`.
proof fn lemma_rect_neighbour_ids_in_bounds(w: int, h: int, x: int, y: int, j: int)
    requires
        1 <= w,
        1 <= h,
        0 <= j < rect_neighbour_ids(w, h, x, y).len(),
    ensures
        0 <= rect_neighbour_ids(w, h, x, y)[j] < w * h,
{
    lemma_rect_nb_opt_in_bounds(w, h, x - 1, y - 1);
    lemma_rect_nb_opt_in_bounds(w, h, x - 1, y);
    lemma_rect_nb_opt_in_bounds(w, h, x - 1, y + 1);
    lemma_rect_nb_opt_in_bounds(w, h, x, y - 1);
    lemma_rect_nb_opt_in_bounds(w, h, x, y + 1);
    lemma_rect_nb_opt_in_bounds(w, h, x + 1, y - 1);
    lemma_rect_nb_opt_in_bounds(w, h, x + 1, y);
    lemma_rect_nb_opt_in_bounds(w, h, x + 1, y + 1);
}

/// A candidate that passes the bounds filter has its identifier in range.
proof fn lemma_rect_nb_opt_in_bounds(w: int, h: int, x: int, y: int)
    requires
        1 <= w,
        1 <= h,
    ensures
        forall|j: int|
            0 <= j < rect_nb_opt(w, h, x, y).len() ==> 0 <= #[trigger] rect_nb_opt(w, h, x, y)[j]
                < w * h,
{
    if 0 <= x < w && 0 <= y < h {
        assert(0 <= y * w + x < w * h) by (nonlinear_arith)
            requires
                0 <= x < w,
                0 <= y < h,
        ;
    }
}

} // verus!
