//! Microsecond-resolution epochs, proleptic-Gregorian calendar arithmetic and
//! the supporting data structures of the pykep astrodynamics core.
use vstd::prelude::*;

pub mod astro;
pub mod batch;
pub mod dynamics;
pub mod ephemeris;
pub mod error;
pub mod integration;
pub mod text;
pub mod time;

pub use error::{PykepError, Result};

verus! {

/// Implementation status of the numerical core.
pub const PORT_STATUS: &'static str = "scaffold: numerical core not started";

} // verus!
