[package]
name = "random_id"
version = "0.1.0"
edition = "2021"
publish = false

[dependencies]
aes = "=0.7.5"
fpe = "=0.5.1"

[dev-dependencies]
rand = "=0.8.8"
