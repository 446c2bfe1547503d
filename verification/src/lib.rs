//! Spectral Forge — verified core of a spectral compressor and modular
//! spectral effects processor: MIDI bookkeeping, routing topology, mode
//! tables, ring buffers, PRNG kernels and peak pickers.

pub mod bridge;
pub mod dsp;
pub mod editor;
pub mod params;
