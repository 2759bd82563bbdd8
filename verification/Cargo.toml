[package]
name = "ncspot"
version = "0.1.0"
edition = "2021"
publish = false

[dependencies]
rand = "=0.9.5"
pinyin = "=0.10.0"
serde = { version = "=1.0.229", features = ["derive"] }
serde_json = "=1.0.154"
log = "=0.4.35"
unicode-width = "=0.2.3"
image = { version = "=0.25.10", default-features = false, features = ["png"] }
regex = "1"
