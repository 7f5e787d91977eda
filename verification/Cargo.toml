[package]
name = "mgr"
version = "0.1.0"
edition = "2021"
publish = false

[dependencies]
alphanumeric-sort = "=1.5.8"
anyhow = "=1.0.104"
clap = { version = "=4.6.7", features = ["derive"] }
http-body-util = "=0.1.5"
hyper = "=1.12.0"
open = "=5.4.5"
rayon = "=1.12.0"
serde = { version = "=1.0.229", features = ["derive"] }
serde_json = "=1.0.154"
thiserror = "=2.0.21"
tokio = { version = "=1.54.1", features = ["rt-multi-thread", "macros", "fs", "signal"] }
toml = "=0.8.23"
warp = { version = "=0.4.3", features = ["server"] }
zip = { version = "=9.2.2", default-features = false, features = ["deflate"] }
