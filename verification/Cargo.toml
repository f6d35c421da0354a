[package]
name = "libmdns"
version = "0.1.0"
edition = "2021"
publish = false

[dependencies]
rand = "*"
tokio = { version = "*", features = ["net", "sync", "rt"] }
futures-util = "*"
socket2 = { version = "*", features = ["all"] }
if-addrs = "*"
hostname = "*"
