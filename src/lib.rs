//! Slope estimation over a height grid by area-weighted subpixel sampling.
//!
//! All numbers are exact integers. A coordinate is a fixed-point value in
//! steps of `1 / SUBDIV` of a cell (`geometry::SUBDIV`), with each cell's
//! centre at a whole multiple of `SUBDIV`. Heights are `i32` in whatever step
//! the caller picks. A sample weighs each cell by the area, in square
//! sub-units, that its unit square shares with the unit square around the
//! query point, so a sample is a height times `geometry::CELL_AREA` and a
//! downhill vector is measured in the same units.
//!
//! - `geometry`: unit rectangles and their overlap area.
//! - `grid`: the height grid and the area-weighted sampler.
//! - `slope`: downhill vectors and their length.
//! - `raster`: saturating quantization to 8-bit pixel levels.
use vstd::prelude::*;

pub mod geometry;
pub mod grid;
pub mod raster;
pub mod slope;

verus! {

} // verus!
