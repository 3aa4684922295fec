[package]
name = "pxlr"
version = "0.1.0"
edition = "2021"
publish = false

[dependencies]
bitvec = "1"
bytes = "1"
rstar = "0.9"
serde = { version = "1", features = ["derive"] }
serde_json = "1"
uuid = { version = "1", features = ["v4", "serde"] }
vek = "0.15"
palette = "0.5"
clap = "2"
