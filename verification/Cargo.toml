[package]
name = "classicube-pet-plugin"
version = "0.2.0"
edition = "2021"
publish = false

[dependencies]
pathfinding = "4"
png = "0.18"
classicube-sys = "6"
borsh = { version = "1", features = ["derive"] }
anyhow = "1"
tracing = "0.1"
reqwest = { version = "0.12", default-features = false }
