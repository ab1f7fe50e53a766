[package]
name = "koala"
version = "0.1.0"
edition = "2021"
publish = false

[dependencies]
serde = { version = "=1.0.229", features = ["derive"] }
serde_json = "=1.0.154"
pulldown-cmark = { version = "=0.13.6", default-features = false }
serde_yml = "=0.0.13"
toml = "=1.1.8"
chrono = "=0.4.45"
uuid = { version = "=1.29.0", features = ["v4"] }
dirs = "=7.0.0"
glob = "=0.3.4"
regex = "=1.13.1"
walkdir = "=2.5.0"
tokio = { version = "=1.54.1", features = ["full"] }
futures-util = "=0.3.34"
reqwest = { version = "=0.12.28", default-features = false, features = ["json", "stream", "rustls-tls"] }
anyhow = "=1.0.104"
thiserror = "=2.0.21"
clap = { version = "=4.6.7", features = ["derive"] }
base64 = "0.22"
image = { version = "0.25", default-features = false, features = ["png"] }
libc = "0.2"
