[package]
name = "concrete_integer"
version = "0.1.0"
edition = "2021"
publish = false

[dependencies]
concrete-core = { version = "=1.0.2", default-features = false, features = ["backend_default", "backend_fft"] }
concrete-shortint = "=0.1.1"
rayon = "=1.12.0"
serde = { version = "=1.0.229", features = ["derive"] }
