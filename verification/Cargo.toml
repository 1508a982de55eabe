[package]
name = "zn_core"
version = "0.1.0"
edition = "2021"
publish = false

[dependencies]
keyring = "3"
urlencoding = "2"
reqwest = { version = "0.12", default-features = false, features = ["json", "stream", "rustls-tls"] }
serde = { version = "1", features = ["derive"] }
serde_json = "1"
thiserror = "1"
tokio = { version = "1", features = ["rt", "macros", "time"] }
futures-util = "0.3"
rusqlite = { version = "0.32", features = ["bundled"] }
chrono = "0.4"
log = "0.4"
