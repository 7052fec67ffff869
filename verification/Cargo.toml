[package]
name = "hayro_core"
version = "0.1.0"
edition = "2021"
publish = false

[dependencies]
hayro-syntax = { version = "=0.9.0", default-features = false, features = ["std"] }
kurbo = "=0.13.1"
rustc-hash = "=2.1.3"
smallvec = { version = "=1.16.4", features = ["union"] }
