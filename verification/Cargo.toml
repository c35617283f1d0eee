[package]
name = "termcraft"
version = "0.1.0"
edition = "2021"
publish = false

[dependencies]
bincode = "1.3"
crossterm = "0.27"
mlua = { version = "0.10", features = ["lua54", "vendored"] }
noise = "0.9"
rodio = { version = "0.17", default-features = false }
serde = { version = "1", features = ["derive"] }
tokio = { version = "1", features = ["net", "rt"] }
whoami = "1"
