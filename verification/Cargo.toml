[package]
name = "jpaste"
version = "0.1.0"
edition = "2021"
publish = false

[dependencies]
rand = "=0.10.3"
redis = { version = "=1.7.1", features = ["tokio-comp"] }
tokio = { version = "=1.53.2", features = ["full"] }
warp = { version = "=0.4.3", features = ["server"] }
async-trait = "=0.1.92"
