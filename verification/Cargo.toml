[package]
name = "crawlds"
version = "0.1.0"
edition = "2021"
publish = false

[dependencies]
fastrand = "=2.5.0"
fnv = "=1.0.7"
anyhow = "=1.0.104"
clap = { version = "=4.6.7", features = ["derive"] }
serde = { version = "=1.0.229", features = ["derive"] }
serde_json = "=1.0.154"
tokio = { version = "=1.54.1", features = ["full"] }
thiserror = "=2.0.21"
which = "=8.0.6"
shellexpand = "=3.1.2"
dirs = "=7.0.0"
sled = "=0.34.7"
libc = "=0.2.191"
nix = { version = "=0.31.3", features = ["signal", "process", "time"] }
signal-hook = "=0.3.18"
greetd_ipc = { version = "=0.10.3", features = ["tokio-codec"] }
