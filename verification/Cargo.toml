[package]
name = "hel"
version = "0.1.0"
edition = "2021"
publish = false

[dependencies]
xxhash-rust = { version = "*", features = ["xxh3"] }
num_cpus = "*"
parking_lot = "*"
atomic-waker = "*"
futures-core = "*"
futures-util = "*"

[dev-dependencies]
futures = "*"
