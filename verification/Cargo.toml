[package]
name = "lattice"
version = "0.1.0"
edition = "2021"
publish = false

[dependencies]
vecfx = { version = "=0.1.6", features = ["nalgebra"] }
gchemol-gut = "=0.4.4"
serde = { version = "=1.0.229", features = ["derive"] }

[dev-dependencies]
approx = "=0.5.1"
