[package]
name = "schemars_zod"
version = "0.1.0"
edition = "2021"
publish = false

[dependencies]
schemars = "0.8"
serde_json = "1"
