[package]
name = "kascreech"
version = "0.1.0"
edition = "2021"
publish = false

[dependencies]
fastrand = "1"
getrandom = "0.2"
humphrey = "*"
humphrey_json = "*"
humphrey_ws = "*"
jasondb = "*"
log = "0.4"
rustls = "0.20"
rustls-native-certs = "0.6"
serde = { version = "1", features = ["derive"] }
serde_json = "1"
tokio = { version = "1", features = ["full"] }
tokio-stream = "0.1"
tokio-tungstenite = "*"
futures = "0.3"
ureq = { version = "2", features = ["json"] }
salvo = "*"
