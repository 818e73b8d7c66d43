[package]
name = "brz_json"
version = "0.1.0"
edition = "2021"
publish = false

[dependencies]
brz-io = { version = "*", default-features = false }
serde = { version = "1", features = ["derive"] }
serde_json = "1"

[dev-dependencies]
brz-ds = { version = "*", default-features = false }
