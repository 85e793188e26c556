[package]
name = "flowsurface"
version = "0.1.0"
edition = "2021"
publish = false

[dependencies]
bincode = { version = "=2.0.1", features = ["serde"] }
chrono = "=0.4.45"
chrono-tz = "=0.10.4"
enum-map = "=2.7.3"
iced = { version = "=0.14.0", default-features = false, features = ["canvas", "tiny-skia", "svg", "advanced", "x11", "thread-pool"] }
iced_core = "=0.14.0"
log = "=0.4.35"
redb = "=3.1.3"
rustc-hash = "=2.1.3"
serde = { version = "=1.0.229", features = ["derive"] }
serde_json = "=1.0.154"
thiserror = "=2.0.21"
uuid = { version = "=1.29.0", features = ["v4"] }
