# pykep-core (verified core)

The integer and text logic of the pykep astrodynamics core, written in Verus
and proved against its contracts:

- `src/time`: proleptic-Gregorian calendar arithmetic and microsecond epochs
  relative to MJD2000, with ISO-8601 formatting and parsing
  (`Epoch::to_iso`, `Epoch::from_iso`, `Epoch::from_calendar`) and the laws
  that tie them together (ISO round trip, shift-then-measure, add-then-subtract).
- `src/ephemeris`: the VSOP2013 coefficient container (header, groups, term
  multipliers) and the case-insensitive body-name lookup of the JPL
  low-precision and VSOP2013 providers.
- `src/batch.rs`: the worker limit, dispatch decision and in-order result
  collection of parallel batches.
- `src/error.rs`, `src/text.rs`: the error type with its exact messages and
  the decimal text they are made of.
- `src/integration.rs` and the enums under `src/astro`, `src/dynamics`:
  integrator statistics and shared conventions.

`app/` holds a few floating-point parts that sit next to the verified library
(day counts, Julian dates, VSOP2013 series evaluation, the JPL coefficient
table, physical constants) and the thread-pool execution of batches. Most of
the floating-point API (anomalies, element conversions, Lambert solver,
propagation and state-transition matrices, flybys, dynamics models, low-thrust
legs and the integrators) is not carried over.
