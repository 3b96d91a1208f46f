//! Conventions of the dynamics models.
/// Optimality criteria of the Pontryagin models.
pub mod pontryagin;
