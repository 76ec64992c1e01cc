[package]
name = "editrion_core"
version = "0.1.0"
edition = "2021"
publish = false

[dependencies]
serde_json = "1"

[dev-dependencies]
strip-ansi-escapes = "0.2"
