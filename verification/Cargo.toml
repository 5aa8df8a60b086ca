[package]
name = "place_replay"
version = "0.1.0"
edition = "2021"
publish = false

[dependencies]
bincode = { version = "2", default-features = false, features = ["std"] }
chrono = { version = "0.4", default-features = false, features = ["std"] }
csv = "1"
flate2 = "1"
log = "0.4"
rayon = "1"
serde = { version = "1", features = ["derive"] }
snafu = "*"
vulkano = "*"
vulkano-shaders = "*"
vulkano-util = "*"
winit = "*"
