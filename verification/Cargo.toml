[package]
name = "spg"
version = "0.1.0"
edition = "2021"
publish = false

[dependencies]
regex = "1"
url = "2"
sha1 = "0.10"
unicode-normalization = "0.1"
time = { version = "0.3", features = ["formatting", "parsing"] }
serde = { version = "1", features = ["derive"] }
serde_json = "1"
anyhow = "1"
clap = { version = "4", features = ["derive"] }
rusqlite = { version = "0.32", features = ["bundled"] }
axum = "0.8"
tokio = { version = "1", features = ["macros", "rt-multi-thread", "net"] }
tower-http = { version = "0.6", features = ["fs"] }
base64 = "0.22"
aes-gcm-siv = "0.11"
rand = "0.8"
sha2 = "0.10"
keyring = "3"
leptos = { version = "0.6", features = ["ssr"] }
