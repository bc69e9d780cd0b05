[package]
name = "mayo_scheme"
version = "0.1.0"
edition = "2021"
publish = false

[dependencies]
pq-mayo = "=0.6.0"
signature = "=3.0.0"
rand = "=0.8.8"
zeroize = { version = "=1.9.1", features = ["alloc"] }
