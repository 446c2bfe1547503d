pub mod amp_modes;
pub mod bin_physics;
pub mod circuit_kernels;
pub mod engines;
pub mod fx_matrix;
pub mod history_buffer;
pub mod midi;
pub mod modulation_ring;
pub mod modules;
pub mod peak_order;
pub mod pipeline;
pub mod physics_helpers;
pub mod harmonic_groups;
