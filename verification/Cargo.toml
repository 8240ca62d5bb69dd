[package]
name = "null_or_die"
version = "0.1.0"
edition = "2021"
publish = false

[dependencies]
clap = { version = "4", features = ["derive"] }
md5 = "0.8"
png = "0.18"
rustfft = "6"
serde = { version = "1", features = ["derive"] }
serde_json = "1"
symphonia = { version = "0.5", default-features = false, features = ["ogg", "vorbis"] }
walkdir = "2"
zstd = "0.13"
