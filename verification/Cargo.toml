[package]
name = "fastmail_cli"
version = "0.1.0"
edition = "2021"
publish = false

[dependencies]
anyhow = "1"
async-graphql = "7"
base64 = "0.22"
clap = { version = "4", features = ["derive"] }
clap_complete = "4"
dirs = "6"
html2text = "*"
image = { version = "0.25", default-features = false, features = ["png", "jpeg", "gif", "webp"] }
kreuzberg = { version = "~4.4", default-features = false }
reqwest = { version = "*", features = ["json"] }
rmcp = { version = "*", features = ["server", "transport-io", "macros"] }
roxmltree = "*"
serde = { version = "1", features = ["derive"] }
serde_json = "1"
thiserror = "2"
tokio = { version = "1", features = ["full"] }
toml = "*"
tracing = "0.1"
tracing-subscriber = { version = "0.3", features = ["env-filter"] }
uuid = { version = "1", features = ["v4"] }
