[package]
name = "supaa"
version = "0.1.0"
edition = "2021"
publish = false

[dependencies]
anyhow = "1"
env_logger = "0.11"
gtk4 = { version = "0.9", features = ["v4_12"] }
log = "0.4"
nix = { version = "0.29", features = ["fs", "process", "signal", "user"] }
serde = { version = "1", features = ["derive"] }
serde_json = "1"
tokio = { version = "1", features = ["io-util", "macros", "net", "rt-multi-thread", "signal", "sync", "time"] }
