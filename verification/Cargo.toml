[package]
name = "redb_bincode"
version = "0.1.0"
edition = "2021"
publish = false

[dependencies]
redb = "2"

[dev-dependencies]
bincode = "2"
