[package]
name = "configuard"
version = "0.1.0"
edition = "2021"
publish = false

[dependencies]
askama = "0.12"
base64 = "0.13"
chrono = "0.4"
lockfile = "*"
rand = "0.7"
rand_core = { version = "0.5", features = ["getrandom"] }
regex = "1"
rocket = "0.5"
serde = "1"
serde_derive = "1"
toml = "0.5"
walkdir = "2"
x25519-dalek = "1"
