[package]
name = "uperf"
version = "0.1.0"
edition = "2021"
publish = false

[dependencies]
regex = "1"
serde_json = "1"
nix = { version = "0.29", features = ["sched", "process"] }
serde = { version = "1", features = ["derive"] }
anyhow = "1"
clap = { version = "4", features = ["derive"] }
env_logger = "0.11"
inotify = { version = "0.10", default-features = false }
libc = "0.2"
log = "0.4"
