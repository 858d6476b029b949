[package]
name = "pgcopy"
version = "0.1.0"
edition = "2021"
publish = false

[dependencies]
bytes = "1"
smol_str = "*"
uuid = { version = "1", features = ["v4"] }
rmp = "0.8"
postgres-types = "0.2"
prometheus = { version = "*", default-features = false }
tarantool = "*"
