[package]
name = "porthole"
version = "0.1.0"
edition = "2021"
publish = false

[dependencies]
serde_json = "1"
serde = { version = "1", features = ["derive"] }
dirs = "5"
reqwest = { version = "0.12", default-features = false, features = ["blocking", "json", "rustls-tls"] }
gtk4 = "0.9"
libadwaita = { version = "0.7", features = ["v1_2"] }
ksni = "0.2"
png = "0.17"
async-channel = "2"
libc = "0.2"
