[package]
name = "iiif_image"
version = "0.1.0"
edition = "2021"
publish = false

[dependencies]
image = "=0.25.10"
sha2 = "=0.11.0"
base64ct = { version = "=1.8.3", features = ["alloc"] }
serde = { version = "=1.0.229", features = ["derive"] }
axum = "=0.8.9"
tokio = { version = "=1.53.2", features = ["macros", "rt-multi-thread", "net", "sync"] }
reqwest = { version = "=0.13.5", default-features = false }
walkdir = "=2.5.0"
