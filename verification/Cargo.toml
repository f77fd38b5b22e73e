[package]
name = "nixcfg"
version = "0.3.0"
edition = "2021"
publish = false

[dependencies]
schemars = "1"
serde = { version = "1", features = ["derive"] }
serde_json = "1"
syn = { version = "2", features = ["full"] }
quote = "1"
proc-macro2 = "1"
