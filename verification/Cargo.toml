[package]
name = "quill"
version = "0.1.0"
edition = "2021"
publish = false

[dependencies]
serde_json = "1"
reqwest = { version = "0.12", default-features = false, features = ["blocking", "json", "rustls-tls"] }
dirs = "5"
chrono = "0.4"
arboard = "3"
enigo = "0.2"
tokio = { version = "1", features = ["time"] }
cocoa = "0.26"
objc = "0.2"
core-foundation = "0.10"
core-graphics = "0.24"
