[package]
name = "physics"
version = "0.1.0"
edition = "2021"
publish = false

[dependencies]
uuid = { version = "=1.29.0", features = ["v4"] }
nphysics2d = "=0.24.0"
rand = "=0.5.6"
protobuf = "2"
