[package]
name = "dce_lib"
version = "0.1.0"
edition = "2021"
publish = false

[dependencies]
mlua = { version = "0.9", features = ["lua54", "vendored", "serialize"] }
serde = { version = "1", features = ["derive"] }
serde_json = "1"
serde-aux = "4"
zip = { version = "0.6", default-features = false, features = ["deflate"] }
chrono = "0.4"
anyhow = "1"
base64 = "0.21"
log = "0.4"
itertools = "0.10"
