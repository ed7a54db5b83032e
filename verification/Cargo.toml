[package]
name = "webp_batch"
version = "0.1.0"
edition = "2021"
publish = false

[dependencies]
load_image = "*"
webp = "*"
zip = { version = "*", default-features = false }
minifier = "*"
axum = { version = "*", features = ["multipart"] }
tokio = { version = "*", features = ["macros", "rt-multi-thread", "net"] }
