//! Field lines of point sources: the bookkeeping around the numbers.
//!
//! Everything here is generic over the host's scalar and vector types. The
//! arithmetic itself (the softened inverse-square law, the unit direction, the
//! weighted stage sum) is handed in as pure closures; this crate fixes which
//! closure is applied to what, in which order, and where each result ends up.
//!
//! A contract speaks of a closure `f` through `model(f)`, the function that the
//! closure computes. A caller learns a value of that function by calling the
//! closure: see `kernel::lemma_value_of`.
pub mod kernel;
pub mod em3d;
pub mod solver;
pub mod seed;
pub mod rk4;
pub mod stream;
pub mod stream3d;
