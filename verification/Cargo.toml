[package]
name = "steam-link-matcher"
version = "0.2.0"
edition = "2021"
publish = false

[dependencies]
regex = "1"
html-escape = "0.2"
encoding_rs = "0.8"
csv = "1"
zip = { version = "2", default-features = false, features = ["deflate"] }
urlencoding = "2"
strsim = "0.11"
serde = { version = "1", features = ["derive"] }
serde_json = "1"
reqwest = { version = "0.12", default-features = false, features = ["blocking", "rustls-tls"] }
rusqlite = { version = "0.32", features = ["bundled"] }
chrono = "0.4"
rust_xlsxwriter = "*"
dirs = "5"
anyhow = "1"
log = "0.4"
