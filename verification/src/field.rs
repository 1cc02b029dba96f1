//! The elevation field over an irregular tessellation, as the core consumes
//! it: one entry per cell, holding the cell's identity, representative site,
//! elevation sample, Voronoi area, and the indices of its Voronoi neighbors.
//!
//! The tessellation engine that produces cells, sites, neighbor sets and
//! areas is an external collaborator; callers hand its output over in plain
//! fixed-point integer units. All coordinates, elevations and the cell scale
//! share one length unit.

use vstd::prelude::*;

use crate::sums::sum_over;

verus! {

/// Magnitude bound on site coordinates and elevations, so that squared
/// distances and cross-multiplied slope comparisons fit the machine words.
pub const COORD_LIMIT: i64 = 0x4000_0000;

/// Bound on the cell scale and on the width factors, so that river widths
/// fit the machine words.
pub const SCALE_LIMIT: u64 = 0x100_0000_0000;

/// Fixed-point denominator of the dimensionless width and slope factors.
pub const FACTOR_DEN: u64 = 65536;

/// Identity of a tessellation cell: a deterministic key into the engine's
/// cell lattice.
#[derive(Clone, Copy, PartialEq, Eq, Structural, Debug, Hash)]
pub struct CellId {
    pub ix: i64,
    pub iy: i64,
}

/// One cell of the elevation field.
#[derive(Clone, Debug)]
pub struct Cell {
    pub id: CellId,
    pub site_x: i64,
    pub site_y: i64,
    pub elevation: i64,
    pub area: u64,
    /// Indices, within the field, of this cell's Voronoi neighbors. Neighbors
    /// that lie outside the field are not listed.
    pub neighbors: Vec<usize>,
}

/// An elevation field: the cells and the tessellation's global cell scale.
pub struct CellField {
    pub cells: Vec<Cell>,
    pub scale: u64,
}

impl Cell {
    pub open spec fn wf(self, n: nat) -> bool {
        &&& -COORD_LIMIT <= self.site_x <= COORD_LIMIT
        &&& -COORD_LIMIT <= self.site_y <= COORD_LIMIT
        &&& -COORD_LIMIT <= self.elevation <= COORD_LIMIT
        &&& forall|j: int|
            0 <= j < self.neighbors@.len() ==> (#[trigger] self.neighbors@[j]) < n
    }
}

/// Total intrinsic area of the field, as a mathematical integer.
pub open spec fn total_area(cells: Seq<Cell>) -> int {
    sum_over(cells.len(), |i: int| cells[i].area as int)
}

impl CellField {
    pub open spec fn n(self) -> nat {
        self.cells@.len()
    }

    /// Well-formedness: every cell within machine bounds, every neighbor
    /// index in range, cell identities pairwise distinct, and the total area
    /// small enough that accumulated drainage areas fit a `u64`.
    pub open spec fn wf(self) -> bool {
        &&& forall|i: int|
            0 <= i < self.n() ==> (#[trigger] self.cells@[i]).wf(self.n())
        &&& forall|i: int, j: int|
            0 <= i < j < self.n() ==> (#[trigger] self.cells@[i].id) != (#[trigger] self.cells@[j].id)
        &&& total_area(self.cells@) <= u64::MAX
        &&& self.scale <= SCALE_LIMIT
    }
}

} // verus!
