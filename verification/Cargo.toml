[package]
name = "cubesat_sim"
version = "0.1.0"
edition = "2021"
publish = false

[dependencies]
fixed = "*"
cordic = "*"
serde = { version = "*", features = ["derive"] }
serde_repr = "*"
toml = "*"
