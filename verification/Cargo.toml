[package]
name = "fstesting"
version = "0.1.0"
edition = "2021"
publish = false

[dependencies]
rand = "0.9"
libc = "0.2"
uuid = { version = "1", features = ["v7"] }
