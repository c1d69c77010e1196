[package]
name = "btleplug"
version = "0.1.0"
edition = "2021"
publish = false

[dependencies]
uuid = { version = "=0.8.2", features = ["serde"] }
bitflags = "=1.3.2"
serde = { version = "=1.0.229", features = ["derive"] }
thiserror = "=1.0.69"
