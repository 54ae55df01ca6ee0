//! A gravitational N-body simulation, as the parts that can be proved: the
//! fixed order in which the unordered pairs of bodies interact, a registry of
//! bodies whose last member is the star, and a tick made of two phases, every
//! pair's interaction first and then the integration of every body.
//!
//! The registry is generic in the types of vectors and scalars. The arithmetic
//! on them is handed in as closures, so a caller decides the number format.
use vstd::prelude::*;

pub mod generation;
pub mod pairs;
pub mod registry;

verus! {

} // verus!
