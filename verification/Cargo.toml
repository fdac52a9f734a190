[package]
name = "nix_wasm_lib"
version = "0.1.0"
edition = "2021"
publish = false

[dependencies]
serde = "1"
serde_json = "1"
json5 = "0.4"
toml = "0.9"
