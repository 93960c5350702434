[package]
name = "hermes_desktop"
version = "0.1.0"
edition = "2021"
publish = false

[dependencies]
serde = { version = "1", features = ["derive"] }
serde_json = "1"
serde_yaml = "0.9"
url = "2"
uuid = { version = "1", features = ["v4"] }
base64 = "0.22"
dirs-next = "2"
rusqlite = { version = "0.32", features = ["bundled"] }
reqwest = { version = "0.12", default-features = false, features = ["blocking", "json", "rustls-tls"] }
regex-lite = "0.1"
libc = "0.2"
once_cell = "1"
log = "0.4"
env_logger = "0.11"
