[package]
name = "mailkit"
version = "0.1.0"
edition = "2021"
publish = false

[dependencies]
lettre = "=0.11.23"
openssl = "=0.10.81"
data-encoding = "=2.11.1"
flexi_logger = { version = "=0.31.10", features = ["async"] }
