[package]
name = "memento"
version = "0.1.0"
edition = "2021"
publish = false

[dependencies]
chrono = { version = "0.4", default-features = false, features = ["clock"] }
fs2 = "0.4"
memmap = "0.7"

[dev-dependencies]
byteorder = "1"
