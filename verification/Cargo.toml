[package]
name = "icost_bill_convert"
version = "0.1.0"
edition = "2021"
publish = false

[dependencies]
csv = "1"
encoding_rs = "0.8"
clap = { version = "4", features = ["derive"] }
env_logger = "*"
log = "0.4"
