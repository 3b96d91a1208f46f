//! Lambert-problem solution branches.
use vstd::prelude::*;

verus! {

/// Branch of a Lambert solution.
#[derive(Clone, Copy, Debug, PartialEq, Eq, Structural)]
pub enum LambertPath {
    /// The unique zero-revolution solution.
    ZeroRevolution,
    /// Multi-revolution solution on the left side of minimum time.
    Left,
    /// Multi-revolution solution on the right side of minimum time.
    Right,
}

} // verus!
