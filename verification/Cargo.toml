[package]
name = "blockrace"
version = "0.1.0"
edition = "2021"
publish = false

[dependencies]
ethers = { version = "2", features = ["ws", "ipc"] }
eyre = "0.6"
tokio = { version = "1", features = ["rt-multi-thread", "macros", "sync", "time"] }
