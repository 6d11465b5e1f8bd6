[package]
name = "mcpg-markdown-convert"
version = "0.1.0"
edition = "2021"
publish = false

[dependencies]
calamine = "=0.38.0"
cfb = "=0.16.0"
chardetng = "=0.1.17"
csv = "=1.4.0"
encoding_rs = "=0.8.44"
htmd = "=0.5.6"
infer = "=0.22.0"
kamadak-exif = "=0.6.1"
lofty = "=0.25.5"
mime_guess = "=2.0.5"
minijinja = { version = "=2.24.0", features = ["loader"] }
pdf-extract = "=0.12.1"
quick-xml = "=0.38.4"
serde = { version = "=1.0.229", features = ["derive"] }
serde_json = "=1.0.154"
thiserror = "=2.0.21"
zip = { version = "=7.4.0", default-features = false, features = ["deflate"] }
