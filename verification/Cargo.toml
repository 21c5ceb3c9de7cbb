[package]
name = "vdrop"
version = "0.1.0"
edition = "2021"
publish = false

[dependencies]
serde_json = "1"
uuid = { version = "1", features = ["v4"] }
tokio = { version = "1", features = ["rt-multi-thread", "net", "io-util", "fs", "time", "macros"] }
base64 = "*"
hostname = "*"
local-ip-address = "*"
surge-ping = "*"
