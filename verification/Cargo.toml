[package]
name = "arrow2"
version = "0.1.0"
edition = "2021"
publish = false

[dependencies]
arrow-format = { version = "=0.8.1", features = ["ipc"] }
futures = "=0.3.34"
