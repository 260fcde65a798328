[package]
name = "tamp_lib"
version = "0.1.0"
edition = "2021"
publish = false

[dependencies]
serde = { version = "=1.0.229", features = ["derive"] }
serde_json = "=1.0.154"
semver = "=1.0.28"
uuid = { version = "=1.29.0", features = ["v4"] }
tokio = { version = "=1.54.1", features = ["process", "io-util", "rt", "rt-multi-thread", "sync", "macros", "time"] }
fs4 = "=1.1.0"
trash = "=5.2.9"
ureq = "=3.5.1"

[dev-dependencies]
tempfile = "=3.27.0"
