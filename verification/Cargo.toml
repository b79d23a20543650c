[package]
name = "deskc"
version = "0.1.0"
edition = "2021"
publish = false

[dependencies]
uuid = { version = "=1.29.1", features = ["v4"] }
thiserror = "=1.0.69"
