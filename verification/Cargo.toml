[package]
name = "text_query"
version = "0.1.0"
edition = "2021"
publish = false

[dependencies]
mysql_common = { version = "=0.35.5", default-features = false }
# mysql_common needs a zlib backend to compile; the pure Rust one is chosen here.
flate2 = { version = "=1.1.10", default-features = false, features = ["rust_backend"] }
