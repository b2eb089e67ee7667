[package]
name = "yt_text"
version = "0.1.0"
edition = "2021"
publish = false

[dependencies]
anyhow = "*"
html-escape = "*"
reqwest = { version = "*", default-features = false }
serde_json = "*"
sys-locale = "*"
tokio = { version = "*", features = ["macros", "rt-multi-thread"] }
