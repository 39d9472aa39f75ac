use vstd::prelude::*;

use crate::geometry::{
    lemma_overlap_reach, overlap_area, reach, rect_from_subpixel, PixelRect, CELL_AREA, SUBDIV,
};

verus! {

/// The largest side a grid can have: its cell count must fit in `usize`.
pub const SIDE_LIMIT: u64 = 0x1_0000_0000;

/// No sample exceeds this in absolute value: at most four cells are read,
/// each weighing at most `CELL_AREA` times an `i32` height.
pub const SAMPLE_BOUND: i64 = 0x2_0000_0000_0000;

/// A square grid of heights, row by row: the height of column `i`, row `j`
/// is `cells[j * side + i]`.
#[derive(Debug)]
pub struct HeightGrid {
    pub side: usize,
    pub cells: Vec<i32>,
}

/// The index of the cell whose span starts at or before `v`: `floor(v)`.
pub open spec fn cell_lo(v: int) -> int {
    v / SUBDIV as int
}

/// The index of the cell whose span ends at or after `v`: `ceil(v)`.
pub open spec fn cell_hi(v: int) -> int {
    if v % SUBDIV as int == 0 {
        v / SUBDIV as int
    } else {
        v / SUBDIV as int + 1
    }
}

impl HeightGrid {
    /// The grid holds exactly `side * side` cells.
    pub open spec fn wf(&self) -> bool {
        &&& self.side < SIDE_LIMIT
        &&& self.cells@.len() == self.side * self.side
    }

    /// The height of column `i`, row `j`.
    pub open spec fn height(&self, i: int, j: int) -> int {
        self.cells@[j * self.side + i] as int
    }

    /// `(x, y)` lies inside the square spanned by the centres of the grid's
    /// corner cells, so every cell that a sample reads exists.
    pub open spec fn in_bounds(&self, x: int, y: int) -> bool {
        &&& self.side >= 1
        &&& 0 <= x <= (self.side - 1) * SUBDIV
        &&& 0 <= y <= (self.side - 1) * SUBDIV
    }

    /// `(x, y)` lies at least one cell inside the grid's outer ring of centres,
    /// so the sample one cell away in every direction is in bounds.
    pub open spec fn interior(&self, x: int, y: int) -> bool {
        &&& self.side >= 3
        &&& SUBDIV <= x <= (self.side - 2) * SUBDIV
        &&& SUBDIV <= y <= (self.side - 2) * SUBDIV
    }

    /// What cell `(i, j)` adds to the sample at `(x, y)`: the area that its
    /// unit square shares with the unit square around `(x, y)`, times its
    /// height.
    pub open spec fn weighted(&self, i: int, j: int, x: int, y: int) -> int {
        reach(i * SUBDIV, x) * reach(j * SUBDIV, y) * self.height(i, j)
    }

    /// The area-weighted blend at `(x, y)`, in height units times square
    /// sub-units. Only the cells that the unit square around `(x, y)` can touch
    /// are read: four where both coordinates fall between cell centres, two
    /// where one does, and one where `(x, y)` is a cell centre.
    pub open spec fn sample(&self, x: int, y: int) -> int {
        let fx = x % SUBDIV as int != 0;
        let fy = y % SUBDIV as int != 0;
        let x0 = cell_lo(x);
        let x1 = cell_hi(x);
        let y0 = cell_lo(y);
        let y1 = cell_hi(y);
        if fx && fy {
            self.weighted(x0, y0, x, y) + self.weighted(x0, y1, x, y) + self.weighted(x1, y0, x, y)
                + self.weighted(x1, y1, x, y)
        } else if fy {
            self.weighted(x0, y0, x, y) + self.weighted(x0, y1, x, y)
        } else if fx {
            self.weighted(x0, y0, x, y) + self.weighted(x1, y0, x, y)
        } else {
            self.weighted(x0, y0, x, y)
        }
    }

    /// A grid of `side * side` heights, row by row; `None` when `cells` does
    /// not hold exactly that many.
    pub fn new(side: usize, cells: Vec<i32>) -> (r: Option<HeightGrid>)
        ensures
            r.is_some() <==> cells@.len() == side * side,
            r matches Some(g) ==> g.wf() && g.side == side && g.cells@ == cells@,
    {
        let n = cells.len();
        if side as u64 >= SIDE_LIMIT {
            assert(side * side > usize::MAX) by (nonlinear_arith)
                requires
                    side >= SIDE_LIMIT,
                    usize::MAX < 0x1_0000_0000_0000_0000,
            ;
            return None;
        }
        assert(side * side < SIDE_LIMIT * SIDE_LIMIT) by (nonlinear_arith)
            requires
                side < SIDE_LIMIT,
        ;
        match side.checked_mul(side) {
            Some(total) => {
                if total == n {
                    Some(HeightGrid { side, cells })
                } else {
                    None
                }
            },
            None => None,
        }
    }

    /// The side length of the grid.
    pub fn side(&self) -> (r: usize)
        ensures
            r == self.side,
    {
        self.side
    }

    /// The area-weighted blend at `(x, y)` (see `sample`): the heights of the
    /// cells around the point, each weighted by the area its unit square
    /// shares with the unit square centered at the point. A whole cell weighs
    /// `CELL_AREA`, so at a cell centre the result is that cell's height times
    /// `CELL_AREA`.
    pub fn get_subpixel_value(&self, x: i64, y: i64) -> (r: i64)
        requires
            self.wf(),
            self.in_bounds(x as int, y as int),
        ensures
            r == self.sample(x as int, y as int),
            -SAMPLE_BOUND <= r <= SAMPLE_BOUND,
    {
        let q = rect_from_subpixel(x, y);
        let x0 = (x / SUBDIV) as usize;
        let y0 = (y / SUBDIV) as usize;
        let fx = x % SUBDIV != 0;
        let fy = y % SUBDIV != 0;
        if fx && fy {
            let a = self.weighted_cell(x0, y0, &q, Ghost(x as int), Ghost(y as int));
            let b = self.weighted_cell(x0, y0 + 1, &q, Ghost(x as int), Ghost(y as int));
            let c = self.weighted_cell(x0 + 1, y0, &q, Ghost(x as int), Ghost(y as int));
            let d = self.weighted_cell(x0 + 1, y0 + 1, &q, Ghost(x as int), Ghost(y as int));
            a + b + c + d
        } else if fy {
            let a = self.weighted_cell(x0, y0, &q, Ghost(x as int), Ghost(y as int));
            let b = self.weighted_cell(x0, y0 + 1, &q, Ghost(x as int), Ghost(y as int));
            a + b
        } else if fx {
            let a = self.weighted_cell(x0, y0, &q, Ghost(x as int), Ghost(y as int));
            let c = self.weighted_cell(x0 + 1, y0, &q, Ghost(x as int), Ghost(y as int));
            a + c
        } else {
            self.weighted_cell(x0, y0, &q, Ghost(x as int), Ghost(y as int))
        }
    }

    /// What cell `(i, j)` adds to the sample whose unit square is `q`.
    fn weighted_cell(&self, i: usize, j: usize, q: &PixelRect, Ghost(x): Ghost<int>, Ghost(y): Ghost<int>) -> (r: i64)
        requires
            self.wf(),
            i < self.side,
            j < self.side,
            q.centered_at(x, y),
            q.wf(),
        ensures
            r == self.weighted(i as int, j as int, x, y),
            -CELL_AREA * 0x8000_0000 <= r <= CELL_AREA * 0x8000_0000,
    {
        let cx = i as i64 * SUBDIV;
        let cy = j as i64 * SUBDIV;
        let cell = rect_from_subpixel(cx, cy);
        let area = overlap_area(&cell, q);
        proof {
            lemma_overlap_reach(cell, *q);
            assert(reach(cell.xmin as int, q.xmin as int) == reach(i * SUBDIV, x));
            assert(reach(cell.ymin as int, q.ymin as int) == reach(j * SUBDIV, y));
            lemma_index_in_range(self.side as int, i as int, j as int);
        }
        let n = self.cells.len();
        assert(j * self.side + i < n);
        let h = self.cells[j * self.side + i] as i64;
        assert(-CELL_AREA * 0x8000_0000 <= area * h <= CELL_AREA * 0x8000_0000) by (nonlinear_arith)
            requires
                0 <= area <= CELL_AREA,
                -0x8000_0000 <= h < 0x8000_0000,
        ;
        area * h
    }
}

/// Cell `(i, j)` of a grid of side `side` is stored within the grid's cells.
proof fn lemma_index_in_range(side: int, i: int, j: int)
    requires
        0 <= i < side,
        0 <= j < side,
    ensures
        0 <= j * side + i < side * side,
{
    assert(j * side + i < side * side) by (nonlinear_arith)
        requires
            0 <= i < side,
            0 <= j < side,
    ;
    assert(0 <= j * side) by (nonlinear_arith)
        requires
            0 <= j,
            0 <= side,
    ;
}

/// Where `v` is not a cell centre, the cells just below and just above it
/// share the unit interval around `v` in the proportions of its fraction.
pub proof fn lemma_reach_parts(v: int)
    requires
        v >= 0,
    ensures
        reach(cell_lo(v) * SUBDIV, v) == SUBDIV - v % SUBDIV as int,
        v % SUBDIV as int != 0 ==> reach(cell_hi(v) * SUBDIV, v) == v % SUBDIV as int,
        v % SUBDIV as int != 0 ==> cell_hi(v) == cell_lo(v) + 1,
{
}

/// At a cell centre the sample is that cell's height over one whole cell of
/// area.
pub proof fn lemma_sample_at_cell(g: HeightGrid, i: int, j: int)
    requires
        g.wf(),
        0 <= i < g.side,
        0 <= j < g.side,
    ensures
        g.sample(i * SUBDIV, j * SUBDIV) == g.height(i, j) * CELL_AREA,
{
    assert((i * SUBDIV) % SUBDIV as int == 0 && (i * SUBDIV) / SUBDIV as int == i) by (nonlinear_arith);
    assert((j * SUBDIV) % SUBDIV as int == 0 && (j * SUBDIV) / SUBDIV as int == j) by (nonlinear_arith);
    assert(reach(i * SUBDIV, i * SUBDIV) == SUBDIV);
    assert(reach(j * SUBDIV, j * SUBDIV) == SUBDIV);
    let h = g.height(i, j);
    assert(SUBDIV * SUBDIV * h == h * CELL_AREA) by (nonlinear_arith);
}

/// Where every cell that the sample at `(x, y)` reads holds the height `v`,
/// the sample is `v` over one whole cell of area: the blend is exact on
/// regions of constant height.
pub proof fn lemma_sample_constant(g: HeightGrid, x: int, y: int, v: int)
    requires
        g.wf(),
        g.in_bounds(x, y),
        g.height(cell_lo(x), cell_lo(y)) == v,
        g.height(cell_lo(x), cell_hi(y)) == v,
        g.height(cell_hi(x), cell_lo(y)) == v,
        g.height(cell_hi(x), cell_hi(y)) == v,
    ensures
        g.sample(x, y) == v * CELL_AREA,
{
    lemma_reach_parts(x);
    lemma_reach_parts(y);
    let fx = x % SUBDIV as int;
    let fy = y % SUBDIV as int;
    let s = SUBDIV as int;
    assert((s - fx) * (s - fy) * v + (s - fx) * fy * v + fx * (s - fy) * v + fx * fy * v == v * CELL_AREA) by (nonlinear_arith)
        requires
            s == SUBDIV,
    ;
    assert((s - fx) * s * v == (s - fx) * s * v);
    assert((s - fx) * s * v + fx * s * v == v * CELL_AREA) by (nonlinear_arith)
        requires
            s == SUBDIV,
    ;
    assert(s * (s - fy) * v + s * fy * v == v * CELL_AREA) by (nonlinear_arith)
        requires
            s == SUBDIV,
    ;
}

} // verus!
