//! Per-cell state: terrain classification and independent markers.

use vstd::prelude::*;

verus! {

/// One grid cell.  `wall` and `space` classify the terrain; the remaining
/// fields are independent markers.  After a grid reset exactly one of
/// `wall` / `space` is set for every cell, an invariant the mutation API of
/// the grid preserves.
#[derive(Clone, Copy, PartialEq, Eq, Structural, Debug)]
pub struct Cell {
    /// Terrain: open space.
    pub space: bool,
    /// Terrain: wall.
    pub wall: bool,
    /// Transient digger marker: the walk has backtracked through this cell.
    pub footprints: bool,
    /// Gameplay must not traverse this cell.
    pub noentry: bool,
    /// Exactly one cardinal neighbour is open space.
    pub deadend: bool,
    /// The cell hosts a reward object and is forced no-entry.
    pub lockedchest: bool,
}

impl Cell {
    /// A plain wall cell with no markers.
    pub open spec fn spec_wall_cell() -> Cell {
        Cell {
            space: false,
            wall: true,
            footprints: false,
            noentry: false,
            deadend: false,
            lockedchest: false,
        }
    }

    /// A plain space cell with no markers.
    pub open spec fn spec_space_cell() -> Cell {
        Cell {
            space: true,
            wall: false,
            footprints: false,
            noentry: false,
            deadend: false,
            lockedchest: false,
        }
    }

    /// Builds a plain wall cell.
    pub fn wall_cell() -> (r: Cell)
        ensures
            r == Cell::spec_wall_cell(),
    {
        Cell {
            space: false,
            wall: true,
            footprints: false,
            noentry: false,
            deadend: false,
            lockedchest: false,
        }
    }

    /// Builds a plain space cell.
    pub fn space_cell() -> (r: Cell)
        ensures
            r == Cell::spec_space_cell(),
    {
        Cell {
            space: true,
            wall: false,
            footprints: false,
            noentry: false,
            deadend: false,
            lockedchest: false,
        }
    }

    /// Termination weight of one cell: carving a wall and stamping a
    /// footprint each lower it, so every generation step lowers the grid's
    /// total weight.
    pub open spec fn weight(self) -> nat {
        if self.wall {
            2
        } else if !self.footprints {
            1
        } else {
            0
        }
    }
}

} // verus!
