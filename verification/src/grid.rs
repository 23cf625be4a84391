//! The grid in memory: its geometry, its samples, and the samples around a
//! cell.

use vstd::prelude::*;

verus! {

/// Geometry of a grid. Sample `(ix, iy)` lies at
/// `(x_min + ix / x_denom, y_min + iy / y_denom)`.
#[derive(Clone, Copy, Debug, PartialEq, Eq, Structural)]
pub struct GridInfo {
    /// Number of grid points along the X axis.
    pub x_num: u32,
    /// Number of grid points along the Y axis.
    pub y_num: u32,
    /// Denominator of the grid interval along the X axis.
    pub x_denom: u32,
    /// Denominator of the grid interval along the Y axis.
    pub y_denom: u32,
    /// Smallest X, as the bit pattern of an IEEE 754 single.
    pub x_min_bits: u32,
    /// Smallest Y, as the bit pattern of an IEEE 754 single.
    pub y_min_bits: u32,
}

impl GridInfo {
    /// The four counts fit the 16-bit fields of the binary header.
    pub open spec fn wf(&self) -> bool {
        &&& self.x_num <= 0xFFFF
        &&& self.y_num <= 0xFFFF
        &&& self.x_denom <= 0xFFFF
        &&& self.y_denom <= 0xFFFF
    }

    /// Number of samples of a grid with this geometry.
    pub open spec fn point_count(&self) -> int {
        self.x_num * self.y_num
    }

    /// Row-major position of sample `(ix, iy)`.
    pub open spec fn position(&self, ix: int, iy: int) -> int {
        iy * self.x_num + ix
    }

    /// Tells whether the four counts fit the binary header.
    pub fn is_wf(&self) -> (ok: bool)
        ensures
            ok == self.wf(),
    {
        self.x_num <= 0xFFFF && self.y_num <= 0xFFFF && self.x_denom <= 0xFFFF && self.y_denom
            <= 0xFFFF
    }

    /// Number of samples of a grid with this geometry.
    pub fn num_points(&self) -> (n: usize)
        requires
            self.wf(),
        ensures
            n == self.point_count(),
    {
        proof {
            lemma_count_bound(self.x_num as int, self.y_num as int);
        }
        let n: u32 = self.x_num * self.y_num;
        n as usize
    }
}

/// A product of two 16-bit counts fits 32 bits.
pub proof fn lemma_count_bound(x: int, y: int)
    by (nonlinear_arith)
    requires
        0 <= x <= 0xFFFF,
        0 <= y <= 0xFFFF,
    ensures
        0 <= x * y <= 0xFFFF * 0xFFFF,
{
}

/// A grid that holds a sample has rows that hold one.
pub proof fn lemma_rows_not_empty(w: int, h: int)
    by (nonlinear_arith)
    requires
        0 <= w,
        w * h > 0,
    ensures
        w > 0,
{
}

/// Inside a grid of `w` columns and `h` rows, a row-major position is below
/// the number of samples.
pub proof fn lemma_position_bound(w: int, h: int, ix: int, iy: int)
    by (nonlinear_arith)
    requires
        0 <= ix < w,
        0 <= iy < h,
    ensures
        0 <= iy * w + ix < w * h,
{
}

/// The samples a query may blend, chosen from the cell `(ix, iy)` and from
/// whether the query lies exactly on a grid line. A neighbour beyond the last
/// column or row is `None`.
#[derive(Clone, Copy, Debug, PartialEq, Eq, Structural)]
pub enum Stencil {
    /// The cell is outside the grid.
    Outside,
    /// The query is a grid point: its sample alone.
    Point { v00: i32 },
    /// The query lies on a column line: the sample and its Y neighbour.
    AlongY { v00: i32, v10: Option<i32> },
    /// The query lies on a row line: the sample and its X neighbour.
    AlongX { v00: i32, v01: Option<i32> },
    /// All four corners.
    Full { v00: i32, v01: Option<i32>, v10: Option<i32>, v11: Option<i32> },
}

/// The sample at `(ix, iy)` where that point is on the grid.
pub open spec fn corner<G: Grid>(g: &G, ix: int, iy: int) -> Option<i32> {
    if ix < g.info().x_num && iy < g.info().y_num {
        Some(g.sample(ix, iy))
    } else {
        None
    }
}

/// The samples that a query in cell `(ix, iy)` blends.
pub open spec fn stencil_of<G: Grid>(
    g: &G,
    ix: int,
    iy: int,
    on_column: bool,
    on_row: bool,
) -> Stencil {
    if ix >= g.info().x_num || iy >= g.info().y_num {
        Stencil::Outside
    } else if on_column && on_row {
        Stencil::Point { v00: g.sample(ix, iy) }
    } else if on_column {
        Stencil::AlongY { v00: g.sample(ix, iy), v10: corner(g, ix, iy + 1) }
    } else if on_row {
        Stencil::AlongX { v00: g.sample(ix, iy), v01: corner(g, ix + 1, iy) }
    } else {
        Stencil::Full {
            v00: g.sample(ix, iy),
            v01: corner(g, ix + 1, iy),
            v10: corner(g, ix, iy + 1),
            v11: corner(g, ix + 1, iy + 1),
        }
    }
}

/// Gridded geoid model.
pub trait Grid: Sized {
    /// Geometry of the grid.
    spec fn info(&self) -> GridInfo;

    /// Sample `(ix, iy)` in thousandths of the height unit.
    spec fn sample(&self, ix: int, iy: int) -> i32;

    /// The value holds a sample for every point of its geometry.
    spec fn valid(&self) -> bool;

    /// Gets grid parameters.
    fn grid_info(&self) -> (info: &GridInfo)
        ensures
            *info == self.info(),
    ;

    /// Gets the value of the grid point at `(ix, iy)`.
    fn lookup_grid_points(&self, ix: u32, iy: u32) -> (v: i32)
        requires
            self.valid(),
            ix < self.info().x_num,
            iy < self.info().y_num,
        ensures
            v == self.sample(ix as int, iy as int),
    ;
}

/// Chooses the samples for a query in cell `(ix, iy)`. `on_column` says
/// that the query has no remainder along X, `on_row` that it has none
/// along Y. A query on a grid point reads that one sample and nothing
/// else.
pub fn stencil<G: Grid>(g: &G, ix: u32, iy: u32, on_column: bool, on_row: bool) -> (s: Stencil)
    requires
        g.valid(),
    ensures
        s == stencil_of(g, ix as int, iy as int, on_column, on_row),
        on_column && on_row && ix < g.info().x_num && iy < g.info().y_num ==> s
            == (Stencil::Point { v00: g.sample(ix as int, iy as int) }),
{
    let info = g.grid_info();
    let x_num: u32 = info.x_num;
    let y_num: u32 = info.y_num;
    if ix >= x_num || iy >= y_num {
        return Stencil::Outside;
    }
    let v00: i32 = g.lookup_grid_points(ix, iy);
    if on_column && on_row {
        return Stencil::Point { v00 };
    }
    let has_x: bool = ix < x_num - 1;
    let has_y: bool = iy < y_num - 1;
    if on_column {
        let v10: Option<i32> = if has_y {
            Some(g.lookup_grid_points(ix, iy + 1))
        } else {
            None
        };
        return Stencil::AlongY { v00, v10 };
    }
    let v01: Option<i32> = if has_x {
        Some(g.lookup_grid_points(ix + 1, iy))
    } else {
        None
    };
    if on_row {
        return Stencil::AlongX { v00, v01 };
    }
    let v10: Option<i32> = if has_y {
        Some(g.lookup_grid_points(ix, iy + 1))
    } else {
        None
    };
    let v11: Option<i32> = if has_x && has_y {
        Some(g.lookup_grid_points(ix + 1, iy + 1))
    } else {
        None
    };
    Stencil::Full { v00, v01, v10, v11 }
}

/// In-memory gridded geoid model: the geometry and one sample per grid point,
/// row by row from the smallest Y upwards.
#[derive(Clone, Debug, PartialEq, Eq)]
pub struct MemoryGrid {
    /// Geometry of the grid.
    pub grid_info: GridInfo,
    /// The samples, in thousandths of the height unit.
    pub points: Vec<i32>,
}

impl MemoryGrid {
    /// The samples in row-major order, in thousandths of the height unit.
    pub open spec fn samples(&self) -> Seq<i32> {
        self.points@
    }

    /// There is one sample for every grid point, and the counts fit the
    /// binary header.
    pub open spec fn wf(&self) -> bool {
        &&& self.grid_info.wf()
        &&& self.samples().len() == self.grid_info.point_count()
    }
}

impl MemoryGrid {
    /// Tells whether the grid holds one sample for every grid point, with
    /// counts that fit the binary header.
    pub fn is_wf(&self) -> (ok: bool)
        ensures
            ok == self.wf(),
    {
        self.grid_info.is_wf() && self.points.len() == self.grid_info.num_points()
    }

    /// Puts a geometry and its samples together; `None` unless there is one
    /// sample for every grid point and the counts fit the binary header.
    pub fn new(grid_info: GridInfo, points: Vec<i32>) -> (r: Option<MemoryGrid>)
        ensures
            match r {
                Some(g) => g.grid_info == grid_info && g.points == points && g.wf(),
                None => !(MemoryGrid { grid_info, points }).wf(),
            },
    {
        let g = MemoryGrid { grid_info, points };
        if g.is_wf() {
            Some(g)
        } else {
            None
        }
    }
}

impl Grid for MemoryGrid {
    open spec fn info(&self) -> GridInfo {
        self.grid_info
    }

    open spec fn sample(&self, ix: int, iy: int) -> i32 {
        self.samples()[self.grid_info.position(ix, iy)]
    }

    open spec fn valid(&self) -> bool {
        self.wf()
    }

    fn grid_info(&self) -> (info: &GridInfo) {
        &self.grid_info
    }

    fn lookup_grid_points(&self, ix: u32, iy: u32) -> (v: i32) {
        proof {
            lemma_count_bound(self.grid_info.x_num as int, self.grid_info.y_num as int);
            lemma_position_bound(
                self.grid_info.x_num as int,
                self.grid_info.y_num as int,
                ix as int,
                iy as int,
            );
            assert(iy * self.grid_info.x_num == self.grid_info.x_num * iy) by (nonlinear_arith);
        }
        let pos: u32 = self.grid_info.x_num * iy + ix;
        self.points[pos as usize]
    }
}

} // verus!
