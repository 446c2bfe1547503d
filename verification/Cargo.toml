[package]
name = "spectral_forge"
version = "0.1.0"
edition = "2021"
publish = false

[dependencies]
num-complex = "*"
realfft = "*"
serde = { version = "*", features = ["derive"] }
smallvec = "*"
parking_lot = "*"
triple_buffer = "*"
