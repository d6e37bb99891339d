[package]
name = "imgpipe"
version = "0.1.0"
edition = "2021"
publish = false

[dependencies]
anyhow = "1"
axum = "0.6"
base64 = "=0.21.7"
bytes = "1"
clap = { version = "4", features = ["derive"] }
colored = "2"
html2md = "0.2"
image = "=0.24.9"
jsonxf = "1"
lru = "=0.12.5"
mime = "0.3"
percent-encoding = "2"
photon-rs = "=0.3.3"
reqwest = { version = "=0.11.27", default-features = false, features = ["json"] }
tokio = { version = "1", features = ["rt-multi-thread", "macros", "sync"] }
tower = "0.4"
tracing = "0.1"
tracing-subscriber = "0.3"
