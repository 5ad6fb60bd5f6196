[package]
name = "strex"
version = "0.1.0"
edition = "2021"
publish = false

[dependencies]
serde = { version = "1", features = ["derive"] }
serde_json = "1"
serde_json_path = "*"
serde_yaml = "0.9"
csv = "1"
url = "2"
strsim = "0.11"
reqwest = { version = "0.12", default-features = false, features = ["json"] }
tokio = { version = "1", features = ["full"] }
tokio-util = "0.7"
anyhow = "1"
thiserror = "*"
clap = { version = "4", features = ["derive"] }
chrono = "0.4"
rquickjs = "*"
axum = { version = "0.7", features = ["ws"] }
tower-http = { version = "*", features = ["cors"] }
rust-embed = "8"
mime_guess = "2"
open = "5"

[dev-dependencies]
tempfile = "3"
