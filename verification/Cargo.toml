[package]
name = "smart_eq_preset_switcher"
version = "0.3.0"
edition = "2021"
publish = false

[dependencies]
base64 = "0.22"
dirs = "5"
flate2 = "1"
reqwest = { version = "0.12", default-features = false, features = ["blocking", "rustls-tls"] }
serde = { version = "1", features = ["derive"] }
serde_json = "1"
tar = "0.4"
thiserror = "1"
webbrowser = "1"
