[package]
name = "dotpatch"
version = "0.1.0"
edition = "2021"
publish = false

[dependencies]
anyhow = "1.0.100"
clap = { version = "4.5.54", features = ["derive", "env"] }
duct = "1.1.1"
jsonc-parser = { version = "0.29.0", features = ["serde"] }
log = "0.4.29"
serde_json = "1.0.149"
simple_logger = "5.1.0"
toml = "0.8"
