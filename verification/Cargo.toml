[package]
name = "tinyinference"
version = "0.1.0"
edition = "2021"
publish = false

[dependencies]
anyhow = "=1.0.104"
axum = { version = "=0.8.9", default-features = false, features = ["http1", "tokio"] }
clap = { version = "=4.6.7", features = ["derive"] }
directories = "=6.0.0"
getrandom = "=0.3.4"
local-ip-address = "=0.6.13"
mdns-sd = "=0.17.2"
rcgen = "=0.14.10"
serde = { version = "=1.0.229", features = ["derive"] }
serde_json = "=1.0.154"
sysinfo = "=0.37.2"
tokio = { version = "=1.54.1", features = ["full"] }
tokio-stream = "=0.1.19"
toml = "=0.9.12"
unicode-width = "=0.2.3"
ureq = { version = "=3.5.1", features = ["json"] }
