[package]
name = "taskmaster"
version = "0.1.0"
edition = "2021"
publish = false

[dependencies]
yaml-rust = "0.4"
bincode = "1"
serde = { version = "1", features = ["derive"] }
libc = "0.2"
rustyline = "*"
syntect = { version = "*", default-features = false, features = ["parsing", "yaml-load", "regex-fancy"] }
