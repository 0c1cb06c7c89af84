[package]
name = "panel_cli"
version = "0.3.0"
edition = "2021"
publish = false

[dependencies]
aes = "0.8"
anyhow = "1"
base64 = "0.22"
cbc = "0.1"
cipher = { version = "0.4", features = ["block-padding"] }
clap = { version = "4", features = ["derive"] }
dirs = "5"
dotenvy = "0.15"
hex = "0.4"
http = "1"
libc = "0.2"
percent-encoding = "2"
rand = "0.8"
reqwest = { version = "0.12", default-features = false, features = ["blocking", "json", "cookies", "multipart", "rustls-tls"] }
rsa = "0.9"
rustls = { version = "0.23", default-features = false, features = ["ring", "std", "logging", "tls12"] }
serde = { version = "1", features = ["derive"] }
serde_json = "1"
tungstenite = { version = "0.24", features = ["rustls-tls-native-roots"] }
