[package]
name = "sysx"
version = "0.1.0"
edition = "2021"
publish = false

[dependencies]
bytes = "1"
env_logger = { version = "0.11", default-features = false }
libc = "0.2"
log = "0.4"
nix = { version = "0.29", features = ["event", "fs", "poll", "process", "signal", "socket", "user"] }
serde = { version = "1", features = ["derive"] }
serde_yaml = "0.9"
thiserror = "1"
