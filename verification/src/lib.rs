//! Constructive solid geometry on binary space partitioning trees.
//!
//! Solids are closed boundaries made of faces: polygons in 3D, line
//! segments in 2D. Boolean operations (union, intersection, difference)
//! are evaluated by clipping BSP trees against each other.
//!
//! All coordinates are fixed-point: the integer `SCALE` stands for the
//! real value one, so a raw coordinate `c` denotes `c / SCALE`.

use vstd::prelude::*;

mod num;
pub mod dim2;
pub mod dim3;

verus! {

/// Scalar type of all coordinates, in fixed-point raw units.
pub type Unit = i64;

/// Scalar type of discretised (snapped) coordinates.
pub type IUnit = i32;

/// Fixed-point scale: the raw representation of the real value one.
pub const SCALE: i64 = 65536;

/// Classification tolerance on the raw plane offset `n . p - w`.
///
/// A unit normal has magnitude about `SCALE`, and positions carry another
/// factor of `SCALE`, so a real distance of about `1e-4` from a plane
/// corresponds to `SCALE * SCALE / 10000` raw offset units.
pub const EPSILON: i64 = 429497;

/// Largest admitted magnitude of a raw coordinate (256 in real units).
/// Keeping coordinates inside this bound keeps every dot product, cross
/// product and plane offset of the library inside `i64`.
pub const COORD_LIMIT: i64 = 16777216;

/// Largest magnitude a plane offset `w` can take over bounded points.
pub const W_LIMIT: i64 = 3 * SCALE * COORD_LIMIT;

/// Depth ceiling for building BSP trees; guards against unbounded
/// recursion on adversarial input.
pub const DEFAULT_DEPTH: u32 = 4096;

/// Failures of solid construction and of the boolean evaluator.
#[derive(Clone, Copy, Debug, PartialEq, Eq, Structural)]
pub enum CsgError {
    /// Fewer vertices than the dimension admits, or collinear corners.
    DegenerateGeometry,
    /// A vertex lies further than the tolerance from the face's plane.
    NonCoplanarVertices,
    /// A BSP tree would have grown deeper than the given ceiling.
    DepthExceeded,
}

} // verus!
