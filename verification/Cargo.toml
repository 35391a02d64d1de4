[package]
name = "mqtr"
version = "0.1.0"
edition = "2021"
publish = false

[dependencies]
arbitrary = "1"
log = "0.4"
mio = { version = "0.8", features = ["os-poll", "net"] }
uuid = { version = "1", features = ["v4"] }
