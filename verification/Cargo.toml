[package]
name = "constrained_clustering"
version = "0.1.0"
edition = "2021"
publish = false

[dependencies]
rand = "0.8"
priority-queue = "*"
csv = "*"
ndarray = "*"
npy = "*"
chrono = "*"
serde = { version = "*", features = ["derive"] }
simple-error = "*"
