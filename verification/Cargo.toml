[package]
name = "triplestore"
version = "0.1.0"
edition = "2021"
publish = false

[dependencies]
ulid = "1"
serde = "1"
bincode = "1.3"
sled = "0.34"
