[package]
name = "churros"
version = "0.1.0"
edition = "2021"
publish = false

[dependencies]
serde_json = "1"
wait-timeout = "0.2"
tar = "0.4"
zstd = "0.13"
