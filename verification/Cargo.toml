[package]
name = "materialization"
version = "0.1.0"
edition = "2021"
publish = false

[dependencies]
anyhow = "1"
bimap = "*"
clap = { version = "4", features = ["derive"] }
hdrhistogram = "*"
lazy_static = "1"
metrics = "*"
petgraph = "*"
regex = "1"
serde = { version = "1", features = ["derive"] }
tracing = "0.1"
