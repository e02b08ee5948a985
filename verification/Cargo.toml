[package]
name = "cookie_snatch"
version = "0.1.0"
edition = "2021"
publish = false

[dependencies]
anyhow = "1"
base64 = "0.22"
core-foundation = "0.10"
core-foundation-sys = "0.8"
serde = { version = "1", features = ["derive"] }
serde_json = "1"
thiserror = "2"
tungstenite = { version = "*", default-features = false, features = ["handshake"] }
which = "*"
winreg = "*"
