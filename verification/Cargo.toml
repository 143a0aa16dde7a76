[package]
name = "dispatching"
version = "0.1.0"
edition = "2021"
publish = false

[dependencies]
tokio = { version = "1", features = ["sync", "rt", "macros", "signal", "time"] }
futures = "0.3"
tokio-stream = "0.1"
dptree = "*"
log = "0.4"
