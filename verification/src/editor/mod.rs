pub mod mod_ring;
