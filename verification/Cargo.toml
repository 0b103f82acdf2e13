[package]
name = "live_gyro"
version = "0.1.0"
edition = "2021"
publish = false

[dependencies]
anyhow = "1"
bincode = "1"
crossbeam-channel = "0.5"
csv = "1"
exr = "1"
glam = "0.29"
log = "0.4"
rand = "0.8"
rand_distr = "0.4"
rayon = "1"
serde = { version = "1", features = ["derive"] }
