# spectral_forge

Verified core of Spectral Forge, a spectral compressor and modular spectral
effects processor.

- `src/` — the library, verified with Verus: parameter and mode enums, the
  module table and curve layouts, slot scheduling and routing decisions of
  the effects matrix, sidechain source routing, the dry-path delay ring
  positions, the spectrum history ring, MIDI note bookkeeping, the
  modulation-ring state bank, the xorshift generators, and the integer
  pickers behind the peak detectors, the harmonic-group candidates and the
  Decay Sorter. Magnitudes reach the pickers as order keys (`u32` values that
  order as the magnitudes do).
- `app/` — ordinary Rust around it: the float signal path (magnitudes,
  phases, filters, summary statistics), the editor/audio shared state, the
  serialisable preset types, and the adapters that turn floats into the
  keys and flags the core decides on.
- `tests/` — tests of the library on concrete values.
