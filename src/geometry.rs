use vstd::prelude::*;

verus! {

/// Sub-units per grid cell along each axis. Every coordinate in this crate is a
/// fixed-point number: the value `v` stands for `v / SUBDIV` cells.
pub const SUBDIV: i64 = 256;

/// Half a cell, in sub-units.
pub const HALF: i64 = 128;

/// The area of one whole cell, in square sub-units (`SUBDIV * SUBDIV`).
pub const CELL_AREA: i64 = 65536;

/// A coordinate at which a unit rectangle can be centered without its edges
/// leaving the range of `i64`.
pub open spec fn centre_ok(v: int) -> bool {
    -0x8000_0000_0000_0000 + HALF <= v && v <= 0x7fff_ffff_ffff_ffff - HALF
}

pub open spec fn max_of(a: int, b: int) -> int {
    if a > b { a } else { b }
}

pub open spec fn min_of(a: int, b: int) -> int {
    if a < b { a } else { b }
}

/// The length that the intervals `[alo, ahi]` and `[blo, bhi]` share, or 0
/// when they are disjoint.
pub open spec fn span(alo: int, ahi: int, blo: int, bhi: int) -> int {
    let d = min_of(ahi, bhi) - max_of(alo, blo);
    if d > 0 { d } else { 0 }
}

/// The length that two unit intervals starting at `a` and `b` share.
pub open spec fn reach(a: int, b: int) -> int {
    let d = if a >= b { a - b } else { b - a };
    if d < SUBDIV { SUBDIV - d } else { 0 }
}

/// An axis-aligned rectangle in sub-units. The rectangles of this crate are
/// unit squares: one cell wide and one cell high (see `wf`).
#[derive(Clone, Copy, Debug, PartialEq, Eq)]
pub struct PixelRect {
    pub ymin: i64,
    pub ymax: i64,
    pub xmin: i64,
    pub xmax: i64,
}

impl PixelRect {
    /// The rectangle is one cell wide and one cell high.
    pub open spec fn wf(&self) -> bool {
        self.xmax == self.xmin + SUBDIV && self.ymax == self.ymin + SUBDIV
    }

    /// The rectangle is the unit square centered at `(x, y)`.
    pub open spec fn centered_at(&self, x: int, y: int) -> bool {
        &&& self.xmin == x - HALF
        &&& self.xmax == x + HALF
        &&& self.ymin == y - HALF
        &&& self.ymax == y + HALF
    }
}

/// The area that two rectangles share, in square sub-units. Each axis is
/// clamped at zero before the product, so disjoint rectangles share nothing.
pub open spec fn overlap(a: PixelRect, b: PixelRect) -> int {
    span(a.xmin as int, a.xmax as int, b.xmin as int, b.xmax as int) * span(
        a.ymin as int,
        a.ymax as int,
        b.ymin as int,
        b.ymax as int,
    )
}

/// The unit square centered at `(x, y)`: pixels sit in the middle of their
/// cell, not at a corner.
pub fn rect_from_subpixel(x: i64, y: i64) -> (r: PixelRect)
    requires
        centre_ok(x as int),
        centre_ok(y as int),
    ensures
        r.centered_at(x as int, y as int),
        r.wf(),
{
    PixelRect { ymin: y - HALF, ymax: y + HALF, xmin: x - HALF, xmax: x + HALF }
}

/// The larger of two coordinates.
pub fn max_coord(a: i64, b: i64) -> (r: i64)
    ensures
        r == max_of(a as int, b as int),
{
    if a > b {
        return a;
    }
    b
}

/// The smaller of two coordinates.
pub fn min_coord(a: i64, b: i64) -> (r: i64)
    ensures
        r == min_of(a as int, b as int),
{
    if a < b {
        return a;
    }
    b
}

/// The area of the overlap of two unit rectangles, in square sub-units.
pub fn overlap_area(a: &PixelRect, b: &PixelRect) -> (r: i64)
    requires
        a.wf(),
        b.wf(),
    ensures
        r == overlap(*a, *b),
        0 <= r <= CELL_AREA,
{
    let xhi = min_coord(a.xmax, b.xmax);
    let xlo = max_coord(a.xmin, b.xmin);
    let dx: i64 = if xhi > xlo { xhi - xlo } else { 0 };
    let yhi = min_coord(a.ymax, b.ymax);
    let ylo = max_coord(a.ymin, b.ymin);
    let dy: i64 = if yhi > ylo { yhi - ylo } else { 0 };
    assert(dx * dy <= CELL_AREA) by (nonlinear_arith)
        requires
            0 <= dx <= SUBDIV,
            0 <= dy <= SUBDIV,
    ;
    assert(0 <= dx * dy) by (nonlinear_arith)
        requires
            0 <= dx,
            0 <= dy,
    ;
    dx * dy
}

/// For unit rectangles the shared length on each axis depends only on how far
/// apart the two rectangles are.
pub proof fn lemma_overlap_reach(a: PixelRect, b: PixelRect)
    requires
        a.wf(),
        b.wf(),
    ensures
        overlap(a, b) == reach(a.xmin as int, b.xmin as int) * reach(a.ymin as int, b.ymin as int),
{
}

/// The overlap of two rectangles does not depend on their order.
pub proof fn lemma_overlap_symmetric(a: PixelRect, b: PixelRect)
    ensures
        overlap(a, b) == overlap(b, a),
{
}

/// Two unit rectangles whose centres are one cell apart along one axis share
/// no area.
pub proof fn lemma_adjacent_overlap_zero(a: PixelRect, b: PixelRect)
    requires
        a.wf(),
        b.wf(),
        (b.xmin == a.xmin + SUBDIV && b.ymin == a.ymin) || (b.ymin == a.ymin + SUBDIV && b.xmin
            == a.xmin),
    ensures
        overlap(a, b) == 0,
{
}

/// A unit rectangle overlaps itself in exactly one cell of area.
pub proof fn lemma_self_overlap_unit(a: PixelRect)
    requires
        a.wf(),
    ensures
        overlap(a, a) == CELL_AREA,
{
}

} // verus!
