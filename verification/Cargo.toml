[package]
name = "gartop"
version = "0.1.0"
edition = "2021"
publish = false

[dependencies]
serde = { version = "1", features = ["derive"] }
serde_json = "1"
nix = { version = "0.29", features = ["signal"] }
procfs = "0.17"
users = "0.11"
tokio = { version = "1", features = ["full"] }
anyhow = "1"
thiserror = "1"
clap = { version = "4", features = ["derive"] }
dirs = "5"
toml = "0.8"
tracing = "0.1"
tracing-subscriber = { version = "0.3", features = ["env-filter"] }
netlink-packet-core = "0.7"
netlink-packet-sock-diag = "0.4"
netlink-sys = "0.8"
x11rb = "0.13"
cairo-rs = { version = "0.20", default-features = false }
