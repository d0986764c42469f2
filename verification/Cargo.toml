[package]
name = "mpchash"
version = "0.1.0"
edition = "2021"
publish = false

[dependencies]
crossbeam-skiplist = "=0.1.3"
xxhash-rust = { version = "=0.8.19", features = ["xxh3"] }

[dev-dependencies]
rand = "=0.10.3"
