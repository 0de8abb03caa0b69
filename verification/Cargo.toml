[package]
name = "mquictt"
version = "0.1.0"
edition = "2021"
publish = false

[dependencies]
bytes = "1"
flume = "0.10"
futures = "0.3"
log = "0.4"
mqttbytes = "*"
quinn = "0.7"
rustls = "0.19"
rustls-pemfile = "0.2"
serde = { version = "1", features = ["derive"] }
serde_json = "1"
slab = "0.4"
sled = "0.34"
thiserror = "1"
tokio = { version = "1", features = ["rt-multi-thread", "macros", "sync", "time", "net"] }
