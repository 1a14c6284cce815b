[package]
name = "lovely_mod_manager"
version = "0.1.0"
edition = "2021"
publish = false

[dependencies]
dirs = "=7.0.0"
balatro_mod_index = { version = "=0.4.4", features = ["reqwest"] }
reqwest = { version = "0.12", default-features = false }
zip = { version = "=8.6.0", default-features = false }
