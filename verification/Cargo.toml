[package]
name = "nostd_check"
version = "0.1.0"
edition = "2021"
publish = false

[dependencies]
cargo = "0.42.0"
quote = "1"
syn = { version = "1", features = ["full"] }
toml = "0.5"
