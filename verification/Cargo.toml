[package]
name = "idmon"
version = "0.1.0"
edition = "2021"
publish = false

[dependencies]
anyhow = "1"
chrono = "0.4"
clap = { version = "4", features = ["derive"] }
clap-version-flag = "*"
crossterm = "0.27"
futures-util = "0.3"
gntp = "*"
indexmap = "2"
rasciichart = "*"
ratatui = "0.26"
regex = "1"
reqwest = { version = "0.12", default-features = false, features = ["rustls-tls", "stream"] }
serde = { version = "1", features = ["derive"] }
serde_json = "1"
tokio = { version = "1", features = ["full"] }
