//! Force-directed graph layout physics core.
//!
//! The engine advances a set of graph nodes one frame at a time: a uniform
//! grid index bounds the cost of pairwise repulsion, springs pull connected
//! nodes toward a rest length, and a symplectic Euler integrator turns the
//! accumulated forces into velocity and position updates.
//!
//! All quantities are fixed-point integers: one world unit is `FP_ONE`
//! sub-units. The world domain used by the grid index is
//! `[WORLD_MIN, WORLD_MAX)` on both axes; positions outside it are clamped
//! to boundary cells, never dropped.

use vstd::prelude::*;

pub mod buffers;
pub mod engine;
pub mod forces;
pub mod grid;
pub mod hexcolor;
pub mod integrate;
pub mod laws;
pub mod math;
pub mod model;
pub mod repulsion;
pub mod spring;
pub mod sums;

verus! {

/// Fixed-point scale: sub-units per world unit.
pub const FP_ONE: i64 = 1_000_000;

/// Lower edge of the grid-indexed world domain (-1.0 world units).
pub const WORLD_MIN: i64 = -1_000_000;

/// Upper edge of the grid-indexed world domain (1.0 world units).
pub const WORLD_MAX: i64 = 1_000_000;

/// Cells per axis of the uniform grid.
pub const GRID_SIZE: usize = 32;

/// Total cell count of the uniform grid.
pub const GRID_CELLS: usize = 1024;

/// Width of one grid cell: (WORLD_MAX - WORLD_MIN) / GRID_SIZE.
pub const CELL_WIDTH: i64 = 62_500;

/// Default bound on how many node indices one grid cell records.
pub const DEFAULT_CELL_CAPACITY: usize = 32;

/// Hard limit on the node count processed per step.
pub const MAX_NODES: usize = 100_000;

/// Hard limit on the edge count processed per step.
pub const MAX_EDGES: usize = 200_000;

/// Separations at or below this distance (0.001 world units) contribute no
/// repulsion, so coincident nodes never produce an unbounded force.
pub const EPS_DIST: i64 = 1_000;

/// Floor (0.01 world units) applied to the distance in the repulsion
/// denominator, bounding the peak force at near-zero separation.
pub const MIN_FORCE_DIST: i64 = 10_000;

/// Bound on node coordinates accepted by a step (one million world units);
/// keeps every intermediate product inside 128-bit arithmetic.
pub const POS_LIMIT: i64 = 1_000_000_000_000;

/// Bound on the per-step tunables accepted by a step, for the same reason.
pub const PARAM_LIMIT: i64 = 1_000_000_000_000;

} // verus!
