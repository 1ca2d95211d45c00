//! A 2D granular / soft-body particle simulator: Verlet time integration,
//! a uniform-grid broad phase, and a column-partitioned narrow phase whose
//! schedule is safe to run on several workers at once.
//!
//! All world quantities are fixed-point integers: one world unit is `UNIT`
//! coordinate steps. Every state change is specified exactly, down to the
//! truncated divisions, so a frame is a mathematical function of its inputs.

pub mod array2d;
pub mod body;
pub mod grid;
pub mod num;
pub mod solver;
pub mod timing;

use vstd::prelude::*;

verus! {

/// Fixed-point scale: number of coordinate steps per world unit.
pub const UNIT: i64 = 1_000_000;

/// Largest radius a body may have (a thousand world units).
pub const RADIUS_LIMIT: i64 = 1_000_000_000;

/// Largest effective inertia the anti-pressure model may reach (a million
/// world units of accumulated shove).
pub const INERTIA_LIMIT: i64 = 1_000_000_000_000;

/// Largest number of integration steps per second.
pub const DT_INV_LIMIT: i64 = 10_000;

/// Largest velocity-drag coefficient.
pub const DAMPING_LIMIT: i64 = 10_000;

} // verus!
