[package]
name = "tokio_tcpmux"
version = "0.1.0"
edition = "2021"
publish = false

[dependencies]
bitfield = "*"
bytes = "1"
tokio = { version = "1", features = ["rt", "rt-multi-thread", "net", "sync", "io-util", "time", "macros"] }
parking_lot = "0.12"
tracing = "0.1"
mimalloc = "*"
