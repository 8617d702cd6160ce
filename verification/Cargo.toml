[package]
name = "passprompt"
version = "0.1.0"
edition = "2021"
publish = false

[dependencies]
base64 = "0.22"
clap = "2"
rand = "0.9"
rpassword = "7"
rprompt = "2"
rust-crypto = "0.2"
serde = { version = "1", features = ["derive"] }
toml = "0.8"
xdg = "3"

[dev-dependencies]
regex = "1"
