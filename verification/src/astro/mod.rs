//! Conventions of the astrodynamics routines.
/// Lambert-problem solution branches.
pub mod lambert;
