[package]
name = "imgitor"
version = "0.1.0"
edition = "2021"
publish = false

[dependencies]
walkdir = "=2.5.0"
threadpool = "=1.8.1"
image = { version = "=0.24.9", default-features = false, features = ["jpeg", "png", "webp"] }
webp = "=0.2.6"
zip = { version = "=0.6.6", default-features = false, features = ["deflate"] }
tokio = { version = "=1.54.1", features = ["macros", "rt-multi-thread"] }
dotenv = "=0.15.0"
rocket = "=0.5.2"
cratetorrent = "=0.1.0"
