[package]
name = "addivortes"
version = "0.1.0"
edition = "2021"
publish = false

[dependencies]
libm = "*"
rand_chacha = "*"
rand_core = "*"
rand_distr = "*"
serde = { version = "*", features = ["derive"] }
serde_json = { version = "*", features = ["float_roundtrip"] }
thiserror = "*"
