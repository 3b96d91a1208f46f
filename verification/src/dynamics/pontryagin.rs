//! Optimality criteria of the indirect (Pontryagin) low-thrust models.
use vstd::prelude::*;

verus! {

/// Optimal-control objective.
#[derive(Clone, Copy, Debug, PartialEq, Eq, Structural)]
pub enum Optimality {
    /// Maximize final mass using the logarithmic throttle barrier.
    Mass,
    /// Minimize time with full throttle.
    Time,
}

} // verus!
