[package]
name = "vite_embed"
version = "0.1.0"
edition = "2021"
publish = false

[dependencies]
serde_json = "*"
flate2 = "*"
mime_guess = "*"
ureq = { version = "*", default-features = false }
axum = "*"
tokio = { version = "*", features = ["rt-multi-thread", "macros"] }
