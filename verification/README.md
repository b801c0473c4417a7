# filterkit

Composable signal-processing primitives — FIR and IIR filters, biquads,
SOS cascades, direct forms, gains, delays, exponential averages,
first-order and state-space processors, combinators, decimators,
interpolators, a polyphase resampler and LMS/NLMS adaptive filters — with
contracts checked by Verus.

## Layout

- `src/` is the verified library. Every processor is generic over a
  `Scalar` sample type whose arithmetic is given by spec functions
  (`i32` and `i64` implement it with wrapping `+ - *` and truncating
  division), and every contract states the exact expression a processor
  evaluates and the state it moves to.
  - `traits.rs`: the processing traits (`SampleProcessor`,
    `StreamProcessor`, `AdaptiveProcessor`, `Reset`, `Retune`,
    `SteadyState`, `FiltFiltKernel`, `Prepare`, `ProcessInPlace`).
  - `coeffs/`, `processors/`, `combinators/`, `stream/`, `adaptive/`,
    `design/`: the coefficient types, processors and designers.
  - `ring.rs`: the circular-buffer model shared by the FIR-like processors.
  - `laws.rs`: properties relating several operations (rates of the
    variable-rate processors, agreement of the heap-backed and fixed-size
    filters, what a delay line returns, impulse responses).
- `app/` holds what works in floating point or does I/O: the `f64`
  designers (RBJ biquads, exponential averages, windowed-sinc FIRs, the
  kernel-choosing lowpass spec), frequency-response analysis, a Kalman
  filter over `nalgebra`, and `plotters`-based plots.
- `tests/` exercises the library on concrete values.
