[package]
name = "chd_codec"
version = "0.1.0"
edition = "2021"
publish = false

[dependencies]
byteorder = "=1.5.0"
claxon = "=0.4.3"
flate2 = { version = "=1.1.10", default-features = false, features = ["rust_backend"] }
lzma-rs-perf-exp = { version = "=0.2.1", features = ["raw_decoder"] }
