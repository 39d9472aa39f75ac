use vstd::prelude::*;

use crate::geometry::{reach, SUBDIV};
use crate::grid::{
    cell_hi, cell_lo, lemma_reach_parts, lemma_sample_constant, HeightGrid,
};

verus! {

/// A downhill vector in height units times square sub-units: `vx` grows
/// toward +x (columns), `vy` toward +y (rows). Its angle is
/// `atan2(vy, vx)`; it has none when both parts are zero.
#[derive(Clone, Copy, Debug, PartialEq, Eq)]
pub struct SlopeVector {
    pub vx: i64,
    pub vy: i64,
}

impl SlopeVector {
    /// The square of the vector's Euclidean length.
    pub open spec fn norm_squared(&self) -> int {
        self.vx * self.vx + self.vy * self.vy
    }

    /// The vector has a direction: it is not the zero vector.
    pub fn has_direction(&self) -> (r: bool)
        ensures
            r == (self.vx != 0 || self.vy != 0),
    {
        self.vx != 0 || self.vy != 0
    }

    /// The square of the vector's Euclidean length, exactly.
    pub fn magnitude_squared(&self) -> (r: u128)
        ensures
            r == self.norm_squared(),
    {
        let x = self.vx as i128;
        let y = self.vy as i128;
        assert(0 <= x * x <= 0x4000_0000_0000_0000_0000_0000_0000_0000) by (nonlinear_arith)
            requires
                -0x8000_0000_0000_0000 <= x <= 0x7fff_ffff_ffff_ffff,
        ;
        assert(0 <= y * y <= 0x4000_0000_0000_0000_0000_0000_0000_0000) by (nonlinear_arith)
            requires
                -0x8000_0000_0000_0000 <= y <= 0x7fff_ffff_ffff_ffff,
        ;
        (x * x) as u128 + (y * y) as u128
    }

    /// The vector's Euclidean length, rounded down to a whole number.
    pub fn magnitude(&self) -> (r: u64)
        ensures
            r * r <= self.norm_squared() < (r + 1) * (r + 1),
    {
        let n = self.magnitude_squared();
        let mut lo: u128 = 0;
        let mut hi: u128 = 0x1_0000_0000_0000_0000;
        assert(hi * hi == 0x1_0000_0000_0000_0000 * 0x1_0000_0000_0000_0000) by (nonlinear_arith)
            requires
                hi == 0x1_0000_0000_0000_0000u128,
        ;
        while hi - lo > 1
            invariant
                lo < hi <= 0x1_0000_0000_0000_0000,
                lo * lo <= n,
                n < hi * hi,
            decreases hi - lo,
        {
            let mid = lo + (hi - lo) / 2;
            assert(mid * mid < 0x1_0000_0000_0000_0000 * 0x1_0000_0000_0000_0000) by (nonlinear_arith)
                requires
                    mid < 0x1_0000_0000_0000_0000,
            ;
            if mid * mid <= n {
                lo = mid;
            } else {
                hi = mid;
            }
        }
        assert(hi == lo + 1);
        lo as u64
    }
}

impl HeightGrid {
    /// How much lower the neighbour one cell toward -x is than the one toward
    /// +x, each measured against the sample at `(x, y)`.
    pub open spec fn downhill_x(&self, x: int, y: int) -> int {
        let base = self.sample(x, y);
        (self.sample(x - SUBDIV, y) - base) - (self.sample(x + SUBDIV, y) - base)
    }

    /// How much lower the neighbour one cell toward -y is than the one toward
    /// +y, each measured against the sample at `(x, y)`.
    pub open spec fn downhill_y(&self, x: int, y: int) -> int {
        let base = self.sample(x, y);
        (self.sample(x, y - SUBDIV) - base) - (self.sample(x, y + SUBDIV) - base)
    }

    /// The downhill vector at `(x, y)`: the samples one cell to each side are
    /// compared with the sample at the point, and the vector points from the
    /// higher side to the lower. Diagonal neighbours count on both axes, which
    /// favours the cardinal directions in its length.
    pub fn get_slope_vector(&self, x: i64, y: i64) -> (r: SlopeVector)
        requires
            self.wf(),
            self.interior(x as int, y as int),
        ensures
            r.vx == self.downhill_x(x as int, y as int),
            r.vy == self.downhill_y(x as int, y as int),
    {
        let base = self.get_subpixel_value(x, y);
        let left = self.get_subpixel_value(x - SUBDIV, y) - base;
        let right = self.get_subpixel_value(x + SUBDIV, y) - base;
        let up = self.get_subpixel_value(x, y - SUBDIV) - base;
        let down = self.get_subpixel_value(x, y + SUBDIV) - base;
        SlopeVector { vx: left - right, vy: up - down }
    }
}

/// On a grid of one height everywhere the downhill vector is zero at every
/// interior point.
pub proof fn lemma_flat_grid_no_slope(g: HeightGrid, v: int, x: int, y: int)
    requires
        g.wf(),
        forall|i: int, j: int| 0 <= i < g.side && 0 <= j < g.side ==> #[trigger] g.height(i, j) == v,
        g.interior(x, y),
    ensures
        g.downhill_x(x, y) == 0,
        g.downhill_y(x, y) == 0,
{
    lemma_constant_around(g, v, x, y);
    lemma_constant_around(g, v, x - SUBDIV, y);
    lemma_constant_around(g, v, x + SUBDIV, y);
    lemma_constant_around(g, v, x, y - SUBDIV);
    lemma_constant_around(g, v, x, y + SUBDIV);
}

proof fn lemma_constant_around(g: HeightGrid, v: int, x: int, y: int)
    requires
        g.wf(),
        forall|i: int, j: int| 0 <= i < g.side && 0 <= j < g.side ==> #[trigger] g.height(i, j) == v,
        g.in_bounds(x, y),
    ensures
        g.sample(x, y) == v * SUBDIV * SUBDIV,
{
    assert(0 <= cell_lo(x) <= cell_hi(x) < g.side);
    assert(0 <= cell_lo(y) <= cell_hi(y) < g.side);
    assert(g.height(cell_lo(x), cell_lo(y)) == v);
    assert(g.height(cell_lo(x), cell_hi(y)) == v);
    assert(g.height(cell_hi(x), cell_lo(y)) == v);
    assert(g.height(cell_hi(x), cell_hi(y)) == v);
    lemma_sample_constant(g, x, y, v);
}

/// The blend along x at `x` of the heights in row 0.
spec fn row_blend(g: HeightGrid, x: int) -> int {
    let lo = reach(cell_lo(x) * SUBDIV, x) * g.height(cell_lo(x), 0);
    if x % SUBDIV as int != 0 {
        lo + reach(cell_hi(x) * SUBDIV, x) * g.height(cell_hi(x), 0)
    } else {
        lo
    }
}

proof fn lemma_regroup(a: int, c: int, p: int)
    ensures
        a * c * p == c * (a * p),
{
    assert(a * c * p == c * (a * p)) by (nonlinear_arith);
}

proof fn lemma_split(c: int, d: int, m: int)
    requires
        c + d == SUBDIV,
    ensures
        c * m + d * m == SUBDIV * m,
{
    assert(c * m + d * m == (c + d) * m) by (nonlinear_arith);
}

/// Where no height changes along y, a sample is one cell of height times the
/// blend along x of row 0.
proof fn lemma_sample_uniform_rows(g: HeightGrid, x: int, y: int)
    requires
        g.wf(),
        forall|a: int, b: int| 0 <= a < g.side && 0 <= b < g.side ==> #[trigger] g.height(a, b) == g.height(a, 0),
        g.in_bounds(x, y),
    ensures
        g.sample(x, y) == SUBDIV * row_blend(g, x),
{
    lemma_reach_parts(x);
    lemma_reach_parts(y);
    let (x0, x1, y0, y1) = (cell_lo(x), cell_hi(x), cell_lo(y), cell_hi(y));
    assert(0 <= x0 <= x1 < g.side);
    assert(0 <= y0 <= y1 < g.side);
    assert(g.height(x0, y0) == g.height(x0, 0));
    assert(g.height(x0, y1) == g.height(x0, 0));
    assert(g.height(x1, y0) == g.height(x1, 0));
    assert(g.height(x1, y1) == g.height(x1, 0));
    let (a, b) = (reach(x0 * SUBDIV, x), reach(x1 * SUBDIV, x));
    let (c, d) = (reach(y0 * SUBDIV, y), reach(y1 * SUBDIV, y));
    let (p, q) = (g.height(x0, 0), g.height(x1, 0));
    lemma_regroup(a, c, p);
    lemma_regroup(a, d, p);
    lemma_regroup(b, c, q);
    lemma_regroup(b, d, q);
    if y % SUBDIV as int != 0 {
        lemma_split(c, d, a * p);
        lemma_split(c, d, b * q);
    }
}

/// On a grid whose heights rise strictly toward +x and do not change along y,
/// the downhill vector at every interior point points straight toward -x: its
/// angle is pi.
pub proof fn lemma_rising_x_points_back(g: HeightGrid, x: int, y: int)
    requires
        g.wf(),
        forall|a: int, b: int| 0 <= a < g.side && 0 <= b < g.side ==> #[trigger] g.height(a, b) == g.height(a, 0),
        forall|a: int, b: int| 0 <= a && a + 1 < g.side && 0 <= b < g.side ==> #[trigger] g.height(a, b) < g.height(a + 1, b),
        g.interior(x, y),
    ensures
        g.downhill_x(x, y) < 0,
        g.downhill_y(x, y) == 0,
{
    lemma_sample_uniform_rows(g, x, y);
    lemma_sample_uniform_rows(g, x - SUBDIV, y);
    lemma_sample_uniform_rows(g, x + SUBDIV, y);
    lemma_sample_uniform_rows(g, x, y - SUBDIV);
    lemma_sample_uniform_rows(g, x, y + SUBDIV);
    lemma_reach_parts(x);
    lemma_reach_parts(x - SUBDIV);
    lemma_reach_parts(x + SUBDIV);
    let lo = cell_lo(x);
    let f = x % SUBDIV as int;
    assert(cell_lo(x - SUBDIV) == lo - 1 && (x - SUBDIV) % SUBDIV as int == f);
    assert(cell_lo(x + SUBDIV) == lo + 1 && (x + SUBDIV) % SUBDIV as int == f);
    assert(1 <= lo && lo + 1 < g.side);
    assert(g.height(lo - 1, 0) < g.height(lo, 0));
    assert(g.height(lo, 0) < g.height(lo + 1, 0));
    if f != 0 {
        assert(lo + 2 < g.side);
        assert(g.height(lo + 1, 0) < g.height(lo + 2, 0));
        assert((SUBDIV - f) * g.height(lo - 1, 0) + f * g.height(lo, 0) < (SUBDIV - f) * g.height(lo + 1, 0) + f * g.height(lo + 2, 0)) by (nonlinear_arith)
            requires
                0 < f < SUBDIV,
                g.height(lo - 1, 0) < g.height(lo + 1, 0),
                g.height(lo, 0) < g.height(lo + 2, 0),
        ;
    } else {
        assert(SUBDIV * g.height(lo - 1, 0) < SUBDIV * g.height(lo + 1, 0));
    }
    assert(row_blend(g, x - SUBDIV) < row_blend(g, x + SUBDIV));
}

} // verus!
