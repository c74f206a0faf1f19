[package]
name = "hover"
version = "0.1.0"
edition = "2021"
publish = false

[dependencies]
uuid = { version = "=1.27.0", features = ["v4"] }
rand = "=0.10.3"
socket2 = { version = "=0.6.5", features = ["all"] }
crossbeam-channel = "=0.5.17"
