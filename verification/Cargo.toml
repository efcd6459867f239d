[package]
name = "content_decoding"
version = "0.1.0"
edition = "2021"
publish = false

[dependencies]
async-compression = { version = "*", default-features = false, features = ["futures-io", "gzip", "deflate", "brotli", "zstd"] }
futures = "*"
http = "*"
