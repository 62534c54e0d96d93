[package]
name = "busd"
version = "0.1.0"
edition = "2021"
publish = false

[dependencies]
anyhow = "=1.0.104"
fastrand = "=2.5.0"
rustix = { version = "=1.1.5", features = ["process"] }
tokio = { version = "=1.53.2", features = ["fs", "macros", "net", "rt", "rt-multi-thread", "sync", "time"] }
tracing = "=0.1.44"
zbus = { version = "=5.19.0", default-features = false, features = ["tokio", "bus-impl"] }
