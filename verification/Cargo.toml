[package]
name = "hangscope"
version = "0.1.0"
edition = "2021"
publish = false

[dependencies]
sha2 = "=0.10.9"
libc = "=0.2.190"
serde = { version = "=1.0.229", features = ["derive"] }
serde_json = "=1.0.151"

[dev-dependencies]
nix = { version = "=0.26.4", features = ["fs", "process", "signal", "poll", "dir"] }
