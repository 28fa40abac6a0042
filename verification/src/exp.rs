//! Settings of ready-made objectives.

use vstd::prelude::*;

verus! {

/// The Rastrigin function in `dims` dimensions, negated so that its optimum
/// at the origin is a maximum.
#[derive(Clone, Copy, Debug, PartialEq, Eq, Structural)]
pub struct RastriginEnv {
    /// Number of dimensions of the function.
    pub dims: usize,
}

} // verus!
