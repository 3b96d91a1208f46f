//! Integration diagnostics and event conventions shared by the integrators.
use vstd::prelude::*;

verus! {

/// Direction of a zero crossing that an event detects.
#[derive(Clone, Copy, Debug, PartialEq, Eq, Structural)]
pub enum EventDirection {
    /// Detect either crossing direction.
    Either,
    /// Detect a transition from negative to non-negative.
    Increasing,
    /// Detect a transition from positive to non-positive.
    Decreasing,
}

impl Default for EventDirection {
    /// Either crossing direction.
    fn default() -> (direction: Self)
        ensures
            direction == EventDirection::Either,
    {
        EventDirection::Either
    }
}

/// Work counters of one propagation.
#[derive(Clone, Copy, Debug, PartialEq, Eq, Structural)]
pub struct IntegrationStats {
    /// Right-hand-side evaluations.
    pub rhs_evaluations: usize,
    /// Accepted integration steps.
    pub accepted_steps: usize,
    /// Rejected integration steps.
    pub rejected_steps: usize,
}

impl Default for IntegrationStats {
    /// All counters zero.
    fn default() -> (stats: Self)
        ensures
            stats.rhs_evaluations == 0 && stats.accepted_steps == 0 && stats.rejected_steps == 0,
    {
        IntegrationStats { rhs_evaluations: 0, accepted_steps: 0, rejected_steps: 0 }
    }
}

/// Reason that integration stopped.
#[derive(Clone, Copy, Debug, PartialEq, Eq, Structural)]
pub enum Termination {
    /// The requested final time was reached.
    FinalTime,
    /// A terminal event was located by dense interpolation.
    Event,
}

/// Whether adding `segment` to `total` keeps every counter representable.
pub open spec fn can_accumulate(total: IntegrationStats, segment: IntegrationStats) -> bool {
    &&& total.rhs_evaluations + segment.rhs_evaluations <= usize::MAX
    &&& total.accepted_steps + segment.accepted_steps <= usize::MAX
    &&& total.rejected_steps + segment.rejected_steps <= usize::MAX
}

/// `total` after adding the counters of `segment` to it.
pub open spec fn accumulated(total: IntegrationStats, segment: IntegrationStats) -> IntegrationStats {
    IntegrationStats {
        rhs_evaluations: (total.rhs_evaluations + segment.rhs_evaluations) as usize,
        accepted_steps: (total.accepted_steps + segment.accepted_steps) as usize,
        rejected_steps: (total.rejected_steps + segment.rejected_steps) as usize,
    }
}

/// Adds the counters of one propagation segment to a running total.
pub fn add_statistics(total: &mut IntegrationStats, segment: IntegrationStats)
    requires
        can_accumulate(*old(total), segment),
    ensures
        *final(total) == accumulated(*old(total), segment),
{
    total.rhs_evaluations += segment.rhs_evaluations;
    total.accepted_steps += segment.accepted_steps;
    total.rejected_steps += segment.rejected_steps;
}

/// Adds the counters of one Taylor step sequence to a running total.
pub fn add_stats(total: &mut IntegrationStats, increment: IntegrationStats)
    requires
        can_accumulate(*old(total), increment),
    ensures
        *final(total) == accumulated(*old(total), increment),
{
    total.rhs_evaluations += increment.rhs_evaluations;
    total.accepted_steps += increment.accepted_steps;
    total.rejected_steps += increment.rejected_steps;
}

/// Accumulating statistics segment by segment gives the same total in either
/// grouping: adding `a` then `b` equals adding their sum.
pub proof fn law_accumulation_associative(
    total: IntegrationStats,
    a: IntegrationStats,
    b: IntegrationStats,
)
    requires
        can_accumulate(total, a),
        can_accumulate(accumulated(total, a), b),
    ensures
        can_accumulate(a, b),
        can_accumulate(total, accumulated(a, b)),
        accumulated(accumulated(total, a), b) == accumulated(total, accumulated(a, b)),
{
}

} // verus!
