[package]
name = "toolchain_gate"
version = "0.1.0"
edition = "2021"
publish = false

[dependencies]
toml = "0.5"
rustc_version = "0.4"
