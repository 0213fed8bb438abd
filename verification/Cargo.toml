[package]
name = "neutron"
version = "0.1.0"
edition = "2021"
publish = false

[dependencies]
ff = { version = "0.13", features = ["derive"] }
rand_chacha = "0.3"
rand_core = { version = "0.6", default-features = false, features = ["getrandom"] }
rayon = "1.10"
serde = { version = "1.0", features = ["derive"] }
