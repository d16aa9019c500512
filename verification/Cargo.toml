[package]
name = "cola_cutter"
version = "0.5.0"
edition = "2021"
publish = false

[dependencies]
base64 = "=0.22.1"
regex = "1"
serde = { version = "1", features = ["derive"] }
serde_json = "1"
reqwest = { version = "0.12", default-features = false, features = ["json"] }
tokio = { version = "1", features = ["rt"] }
tauri = { version = "2", default-features = false }
tauri-plugin-dialog = { version = "2", default-features = false }
