[package]
name = "legra_chunk"
version = "0.1.0"
edition = "2021"
publish = false

[dependencies]
crc32fast = "1"
miniz_oxide = "0.8"
thiserror = "2"

[dev-dependencies]
blake3 = { version = "1", features = ["pure"] }
flate2 = "1"
