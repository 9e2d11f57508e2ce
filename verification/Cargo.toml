[package]
name = "xeibe"
version = "0.1.0"
edition = "2021"
publish = false

[dependencies]
quick-xml = "*"
encoding_rs = "*"
zip = { version = "*", default-features = false, features = ["deflate"] }
flate2 = "*"
zstd = "*"
globset = "*"
clap = { version = "*", features = ["derive"] }
