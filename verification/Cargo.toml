[package]
name = "argon"
version = "0.1.0"
edition = "2021"
publish = false

[dependencies]
failure = { version = "=0.1.8", default-features = false, features = ["std"] }
lalrpop-util = "=0.16.3"
nan-preserving-float = "=0.1.0"
