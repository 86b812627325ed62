//! A small path tracer over spherical primitives, verified with Verus.
//!
//! Scalars are fixed-point: an `i64` holds its value times 65536. Every
//! executable numeric routine is specified exactly by a spec-level mirror of
//! the same rounding, so contracts pin results down to the bit.

pub mod fixed;
pub mod hitable;
pub mod hitablelist;
pub mod laws;
pub mod material;
pub mod ray;
pub mod sphere;
pub mod tracer;
mod rng;
pub mod vec3;

use vstd::prelude::*;

verus! {

} // verus!
