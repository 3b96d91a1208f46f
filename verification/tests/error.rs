use pykep_core::PykepError;

#[test]
fn errors_have_stable_useful_messages() {
    let error = PykepError::DimensionMismatch {
        expected: 3,
        actual: 2,
    };
    assert_eq!(error.to_string(), "dimension mismatch: expected 3, got 2");
}

#[test]
fn every_error_variant_has_a_message() {
    let cases = [
        (
            PykepError::InvalidInput {
                parameter: "workers",
                reason: "must not exceed 1024".to_owned(),
            },
            "invalid workers: must not exceed 1024",
        ),
        (
            PykepError::NonFiniteInput { parameter: "days" },
            "days must be finite",
        ),
        (
            PykepError::SingularGeometry { operation: "cross" },
            "singular geometry in cross",
        ),
        (
            PykepError::ConvergenceFailure {
                operation: "kepler",
                iterations: 50,
            },
            "kepler did not converge after 50 iterations",
        ),
        (
            PykepError::DimensionMismatch {
                expected: 0,
                actual: 18_446_744_073_709_551_615,
            },
            "dimension mismatch: expected 0, got 18446744073709551615",
        ),
        (
            PykepError::UnsupportedCapability {
                provider: "earth(jpl_lp)".to_owned(),
                capability: "radius",
            },
            "earth(jpl_lp) does not support radius",
        ),
        (
            PykepError::NumericalOverflow { operation: "exp" },
            "floating-point overflow in exp",
        ),
        (
            PykepError::IntegrationFailure {
                model: "cr3bp",
                reason: "step size underflow".to_owned(),
            },
            "integration of cr3bp failed: step size underflow",
        ),
        (
            PykepError::DataUnavailable { dataset: "VSOP2013" },
            "required dataset is unavailable: VSOP2013",
        ),
    ];
    for (error, message) in cases {
        assert_eq!(error.to_string(), message);
    }
}

#[test]
fn error_helpers_build_their_variants() {
    assert_eq!(
        pykep_core::error::singular("orbit normal"),
        PykepError::SingularGeometry {
            operation: "orbit normal"
        }
    );
    assert_eq!(
        pykep_core::error::integration_failure::<u8>("zoh", "non-finite state"),
        Err(PykepError::IntegrationFailure {
            model: "zoh",
            reason: "non-finite state".to_owned()
        })
    );
}
