[package]
name = "anchor_yard"
version = "0.1.0"
edition = "2021"
publish = false

[dependencies]
anyhow = "1"
bincode = { version = "2", features = ["serde"] }
once_cell = "1"
proc-macro2 = "1"
quote = "1"
serde = { version = "1", features = ["derive"] }
shipyard = { version = "0.8", features = ["serde1"] }
syn = { version = "2", features = ["full"] }
