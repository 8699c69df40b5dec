[package]
name = "rxbms"
version = "0.1.0"
edition = "2021"
publish = false

[dependencies]
bms-rs = "=1.0.0"
encoding_rs = "=0.8.44"
serde = { version = "=1.0.229", features = ["derive"] }
serde_json = "=1.0.154"
mlua = { version = "=0.12.2", features = ["lua54", "vendored"] }
rusqlite = { version = "=0.41.1", features = ["bundled"] }
gametime = "=0.7.2"
symphonia = "=0.6.1"
