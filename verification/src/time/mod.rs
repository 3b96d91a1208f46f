//! Epoch types and calendar conversions.
/// Proleptic-Gregorian calendar arithmetic.
pub mod calendar;
/// Microsecond-resolution epochs and ISO calendar conversion.
pub mod epoch;
/// The order of epochs.
pub mod epoch_order;
