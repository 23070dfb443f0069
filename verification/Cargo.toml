[package]
name = "tiny_web"
version = "0.1.0"
edition = "2021"
publish = false

[dependencies]
percent-encoding = "=2.3.2"
toml = "=0.8.23"
chrono = "=0.4.45"
rand = "=0.8.8"
sha3 = "=0.10.9"
num_cpus = "1"
lettre = { version = "0.11", default-features = false, features = ["builder"] }
