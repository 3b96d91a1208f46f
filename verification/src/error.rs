//! Error types shared by the numerical core.
use vstd::prelude::*;

use crate::text::{append_decimal, decimal};

verus! {

/// Error returned by a pykep numerical operation.
#[derive(Clone, Debug, PartialEq, Eq)]
#[non_exhaustive]
pub enum PykepError {
    /// A finite input lies outside the mathematical domain.
    InvalidInput {
        /// Public parameter name.
        parameter: &'static str,
        /// Human-readable domain requirement.
        reason: String,
    },
    /// A public input is NaN or infinite.
    NonFiniteInput {
        /// Public parameter name.
        parameter: &'static str,
    },
    /// The requested operation is undefined for the supplied geometry.
    SingularGeometry {
        /// Operation that detected the singularity.
        operation: &'static str,
    },
    /// An iterative algorithm exhausted its iteration limit.
    ConvergenceFailure {
        /// Iterative operation that failed.
        operation: &'static str,
        /// Number of iterations attempted.
        iterations: usize,
    },
    /// A dynamically sized value has an invalid length.
    DimensionMismatch {
        /// Required number of scalar values.
        expected: usize,
        /// Supplied number of scalar values.
        actual: usize,
    },
    /// An ephemeris or backend does not implement a requested capability.
    UnsupportedCapability {
        /// Provider or backend name.
        provider: String,
        /// Unsupported capability name.
        capability: &'static str,
    },
    /// A finite input produced a value outside the binary64 range.
    NumericalOverflow {
        /// Numerical operation that overflowed.
        operation: &'static str,
    },
    /// A numerical integrator could not complete a propagation.
    IntegrationFailure {
        /// Dynamics model being integrated.
        model: &'static str,
        /// Human-readable failure context.
        reason: String,
    },
    /// A required embedded or external dataset is unavailable or corrupt.
    DataUnavailable {
        /// Stable dataset name.
        dataset: &'static str,
    },
}

/// Result returned by fallible pykep operations.
pub type Result<T> = core::result::Result<T, PykepError>;

/// The human-readable message of an error.
pub open spec fn error_message(error: PykepError) -> Seq<char> {
    match error {
        PykepError::InvalidInput { parameter, reason } => "invalid "@ + parameter@ + ": "@ + reason@,
        PykepError::NonFiniteInput { parameter } => parameter@ + " must be finite"@,
        PykepError::SingularGeometry { operation } => "singular geometry in "@ + operation@,
        PykepError::ConvergenceFailure { operation, iterations } => operation@
            + " did not converge after "@ + decimal(iterations as nat) + " iterations"@,
        PykepError::DimensionMismatch { expected, actual } => "dimension mismatch: expected "@
            + decimal(expected as nat) + ", got "@ + decimal(actual as nat),
        PykepError::UnsupportedCapability { provider, capability } => provider@
            + " does not support "@ + capability@,
        PykepError::NumericalOverflow { operation } => "floating-point overflow in "@ + operation@,
        PykepError::IntegrationFailure { model, reason } => "integration of "@ + model@
            + " failed: "@ + reason@,
        PykepError::DataUnavailable { dataset } => "required dataset is unavailable: "@
            + dataset@,
    }
}

/// Whether `error` reports an invalid `parameter` for the given `reason`.
pub open spec fn is_invalid_input(error: PykepError, parameter: Seq<char>, reason: Seq<char>) -> bool {
    error matches PykepError::InvalidInput { parameter: p, reason: r } && p@ == parameter && r@
        == reason
}

impl PykepError {
    /// Formats the human-readable message of this error.
    pub fn to_string(&self) -> (message: String)
        ensures
            message@ == error_message(*self),
    {
        let mut out = String::new();
        match self {
            PykepError::InvalidInput { parameter, reason } => {
                out.append("invalid ");
                out.append(parameter);
                out.append(": ");
                out.append(reason.as_str());
            },
            PykepError::NonFiniteInput { parameter } => {
                out.append(parameter);
                out.append(" must be finite");
            },
            PykepError::SingularGeometry { operation } => {
                out.append("singular geometry in ");
                out.append(operation);
            },
            PykepError::ConvergenceFailure { operation, iterations } => {
                out.append(operation);
                out.append(" did not converge after ");
                append_decimal(&mut out, *iterations as u64);
                out.append(" iterations");
            },
            PykepError::DimensionMismatch { expected, actual } => {
                out.append("dimension mismatch: expected ");
                append_decimal(&mut out, *expected as u64);
                out.append(", got ");
                append_decimal(&mut out, *actual as u64);
            },
            PykepError::UnsupportedCapability { provider, capability } => {
                out.append(provider.as_str());
                out.append(" does not support ");
                out.append(capability);
            },
            PykepError::NumericalOverflow { operation } => {
                out.append("floating-point overflow in ");
                out.append(operation);
            },
            PykepError::IntegrationFailure { model, reason } => {
                out.append("integration of ");
                out.append(model);
                out.append(" failed: ");
                out.append(reason.as_str());
            },
            PykepError::DataUnavailable { dataset } => {
                out.append("required dataset is unavailable: ");
                out.append(dataset);
            },
        }
        proof {
            assert(out@ =~= error_message(*self));
        }
        out
    }
}

/// The error reporting that `operation` is undefined for the supplied geometry.
pub fn singular(operation: &'static str) -> (error: PykepError)
    ensures
        error == (PykepError::SingularGeometry { operation }),
{
    PykepError::SingularGeometry { operation }
}

/// The failed outcome of an integration of `model`, for the given `reason`.
pub fn integration_failure<T>(model: &'static str, reason: &'static str) -> (outcome: Result<T>)
    ensures
        outcome matches Err(PykepError::IntegrationFailure { model: m, reason: r }) && m == model
            && r@ == reason@,
{
    Err(PykepError::IntegrationFailure { model, reason: reason.to_owned() })
}

} // verus!
