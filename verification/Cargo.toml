[package]
name = "infinite_flux"
version = "0.1.0"
edition = "2021"
publish = false

[dependencies]
serde = { version = "1", features = ["derive"] }
bincode = "1.3"
tokio = { version = "1", features = ["rt", "net", "io-util", "sync", "time"] }
