[package]
name = "procpin"
version = "0.1.0"
edition = "2021"
publish = false

[dependencies]
nix = { version = "*", features = ["sched", "process"] }
serde = { version = "1", features = ["derive"] }
toml = "*"
