[package]
name = "reddw_core"
version = "0.1.0"
edition = "2021"
publish = false

[dependencies]
sha256 = "*"
data-encoding = "*"
mime_guess = "*"
base64 = "*"
rand = "*"
chrono = "*"
hex = "*"
serde = { version = "*", features = ["derive"] }
serde_json = "*"
