[package]
name = "ff-video"
version = "0.1.0"
edition = "2021"
publish = false

[dependencies]
anyhow = "1"
bus = "2"
image = { version = "0.24", default-features = false }
thiserror = "1"
tracing = "0.1"
tracing-subscriber = "0.3"
