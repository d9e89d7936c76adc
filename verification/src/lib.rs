//! Procedural maze generation on a rectangular grid.
//!
//! A `Maze` owns a `width x height` array of cells, a seeded random stream and
//! a start coordinate.  Carving strategies (a random-walk digger and a
//! pattern-driven wall remover) turn walls into open space, and an analysis
//! pass derives dead-end, no-entry and reward markers.  Every public
//! operation carries a contract; the generation invariants (walled border,
//! wall/space exclusivity, connectivity to the start cell) are proved.

use vstd::prelude::*;

pub mod cell;
pub mod counting;
pub mod geometry;
pub mod maze;
pub mod minimap;
pub mod player;
pub mod reach;
pub mod rng;
pub mod state;

verus! {

/// Grid width of the standard configuration, outer border included.
pub const MAP_GRIDS_WIDTH: i32 = 51;

/// Grid height of the standard configuration, outer border included.
pub const MAP_GRIDS_HEIGHT: i32 = 51;

} // verus!
