[package]
name = "rw_renderer"
version = "0.1.0"
edition = "2021"
publish = false

[dependencies]
base64 = "0.22"
pulldown-cmark = { version = "0.13", default-features = false }
serde = { version = "1", features = ["derive"] }
thiserror = "2"
