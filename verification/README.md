# aec3

Verified building blocks of acoustic echo cancellation (`aec3`) and of automatic gain
control with voice detection (`agc2`).

- `src/` is the library. Every item of it is verified by Verus. Its algorithms are
  generic in the numbers they compute with: the operations of a number type stand in
  the contracts as they are (`audio_processing::arithmetic`), so a contract says which
  operations are made and in which order, and holds of `f32` as of any other type whose
  operations are functions of their arguments. That condition, on which the clauses about
  values rest, Verus can neither prove nor refute for `f32`, whose operators are specified
  to it only as relations. Without the condition, the bounds and the integer parts of the
  contracts hold. Tuning values come in parameter structs, and
  roots, logarithms and transforms as closures.
- `tests/` runs the library on `f32` and `f64`.
- `app/` is ordinary Rust: the `f32` tuning values, the Fourier transforms, the detection
  of the machine's instructions, and the counts and logs of the process.

## Layout of the library

- `api::config`: settings of the echo canceller.
- `audio_processing::aec3`: blocks and buffers of samples, delay search by matched
  filters and its aggregation, the state of the echo canceller with its detectors, and
  the detection of multi-channel content.
- `audio_processing::agc2`: level and noise estimation, limiter, saturation protection,
  adaptive digital gain, clipping prediction and input volume control.
- `audio_processing::agc2::rnn_vad`: pitch search, spectral features and the recurrent
  network of the voice detection.

Public proof functions whose names begin with `law_` state what holds of several
operations together.
