[package]
name = "rust_dlna_server"
version = "0.1.0"
edition = "2021"
publish = false

[dependencies]
anyhow = "1"
regex = "1"
roxmltree = "*"
md5 = "*"
chrono = "0.4"
axum = "0.8"
tokio = { version = "1", features = ["full"] }
tokio-util = { version = "0.7", features = ["io"] }
tower-http = { version = "*", features = ["fs"] }
tracing = "0.1"
tracing-subscriber = { version = "0.3", features = ["env-filter", "fmt"] }
tracing-appender = "*"
clap = { version = "4", features = ["derive"] }
flate2 = "1"
local-ip-address = "*"
notify = "*"
notify-debouncer-full = "*"
reqwest = { version = "*", default-features = false }
socket2 = { version = "*", features = ["all"] }
serde = { version = "1", features = ["derive"] }
serde_json = "1"
