[package]
name = "unblocked"
version = "0.1.0"
edition = "2021"
publish = false

[dependencies]
bincode = "=1.3.3"
chrono = "=0.4.45"
dirs = "=7.0.0"
serde = { version = "=1.0.229", features = ["derive"] }
serde_derive = "=1.0.229"
tetra = { version = "=0.9.1", default-features = false, features = ["texture_png"] }
toml = "=1.1.8"
