[package]
name = "tiny_conn"
version = "0.1.0"
edition = "2021"
publish = false

[dependencies]
base64 = "0.13"
mio = { version = "*", features = ["net", "os-poll"] }

[dev-dependencies]
quickcheck = "*"
