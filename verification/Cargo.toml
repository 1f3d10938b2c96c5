[package]
name = "zshare"
version = "0.1.0"
edition = "2021"
publish = false

[dependencies]
zenoh = { version = "=1.10.1", default-features = false }
uuid = { version = "=1.29.0", features = ["v4"] }
rmp-serde = "=1.3.1"
serde = { version = "=1.0.229", features = ["derive"] }
flume = "=0.11.1"
thiserror = "=2.0.21"
