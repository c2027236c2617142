[package]
name = "unshare"
version = "0.1.0"
edition = "2021"
publish = false

[dependencies]
libc = "0.2"
nix = { version = "*", features = ["fs", "mount", "process", "sched", "signal", "user"] }

[dev-dependencies]
rand = "0.8"
