//! Ephemeris conventions and the coefficient container of the analytical
//! planetary theory.
use vstd::prelude::*;

/// Body names and their case-insensitive lookup.
pub mod names;
/// The VSOP2013 coefficient container.
pub mod vsop2013;

verus! {

/// Orbital-element representation of an ephemeris state.
#[derive(Clone, Copy, Debug, PartialEq, Eq, Structural)]
pub enum ElementRepresentation {
    /// `[a,e,i,Omega,omega,true_anomaly]`.
    ClassicalTrue,
    /// `[a,e,i,Omega,omega,mean_anomaly]` for elliptic states.
    ClassicalMean,
    /// Prograde modified equinoctial `[p,f,g,h,k,L]`.
    ModifiedEquinoctial,
    /// Retrograde modified equinoctial `[p,f,g,h,k,L]`.
    ModifiedEquinoctialRetrograde,
}

} // verus!
