[package]
name = "paillier"
version = "0.1.0"
edition = "2021"
publish = false

[dependencies]
num = "=0.4.3"
num-bigint = { version = "=0.4.8", features = ["rand"] }
num-modular = { version = "=0.5.1", features = ["num-bigint"] }
num-prime = "=0.4.4"
rand = "=0.8.8"
log = "=0.4.34"
env_logger = "=0.11.11"
