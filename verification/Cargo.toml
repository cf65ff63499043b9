[package]
name = "extrae_rs"
version = "0.1.0"
edition = "2021"
publish = false

[dependencies]
nix = { version = "*", features = ["sched", "time", "hostname", "feature"] }
chrono = "*"
config = "*"
serde = { version = "*", features = ["derive"] }
tracing = "*"
perf-event = "*"
