[package]
name = "krait_config"
version = "0.1.0"
edition = "2021"
publish = false

[dependencies]
dirs = "*"
mlua = { version = "0.9", features = ["lua54", "vendored"] }
serde = { version = "1", features = ["derive"] }
