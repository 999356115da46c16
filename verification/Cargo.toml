[package]
name = "bluefrog"
version = "0.1.0"
edition = "2021"
publish = false

[dependencies]
blake3 = "1"
fastrand = "2"
getrandom = "0.3"
http-body-util = "0.1"
hyper = { version = "1", features = ["http1", "server"] }
hyper-util = { version = "0.1", features = ["tokio"] }
itoa = "1"
parking_lot = "0.12"
rustables = "0.8"
socket2 = { version = "0.6", features = ["all"] }
tokio = { version = "1", features = ["macros", "net", "rt-multi-thread", "signal", "time"] }
