[package]
name = "kv_engine"
version = "0.1.0"
edition = "2021"
publish = false

[dependencies]
byteorder = "1"
protobuf = "2"
rocksdb = { version = "*", default-features = false }

[dev-dependencies]
tempdir = "0.3"
