[package]
name = "plugin_store"
version = "0.1.0"
edition = "2021"
publish = false

[dependencies]
actix-cors = "0.6"
actix-web = "4"
bytes = "1"
chrono = "0.4"
clap = { version = "4", features = ["derive"] }
log = "0.4"
serde = { version = "1", features = ["derive"] }
serde_json = "1"
sha256 = { version = "1", default-features = false }
simplelog = "0.12"
ureq = { version = "2", features = ["json"] }
