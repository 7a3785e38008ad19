[package]
name = "mini_httpd"
version = "0.1.0"
edition = "2021"
publish = false

[dependencies]
chrono = "0.4"
clap = { version = "*", features = ["derive"] }
log = "0.4"
rtfmt = "*"
simple_logger = "*"
