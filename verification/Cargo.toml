[package]
name = "pgcapture"
version = "0.1.0"
edition = "2021"
publish = false

[dependencies]
anyhow = "*"
blake3 = "*"
clap = { version = "*", features = ["derive"] }
log = "*"
serde = { version = "*", features = ["derive"] }
time = "*"
uuid = { version = "*", features = ["v4"] }
zstd = "*"

[dev-dependencies]
hex = "*"
tar = "*"
