[package]
name = "epub_image_embedder"
version = "0.1.0"
edition = "2021"
publish = false

[dependencies]
backon = "1"
bincode = "1.3"
cache_control = "0.2"
clap = { version = "4", features = ["derive"] }
dirs = "5"
futures = "0.3"
hex = "0.4"
human_bytes = "0.4"
image = { version = "0.25", default-features = false, features = ["png", "jpeg"] }
indicatif = "0.17"
infer = "0.16"
mozjpeg = "0.10"
oxipng = { version = "9", default-features = false, features = ["parallel"] }
pathdiff = "0.2"
quick-xml = "0.37"
rayon = "1"
reqwest = { version = "0.12", default-features = false, features = ["rustls-tls"] }
rusqlite = { version = "0.32", features = ["bundled"] }
serde = { version = "1", features = ["derive"] }
sha2 = "0.10"
srcset-parse = "*"
thiserror = "2"
tokio = { version = "1", features = ["full"] }
zip = { version = "2", default-features = false, features = ["deflate"] }
