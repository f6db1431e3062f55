[package]
name = "persianpkt"
version = "0.1.0"
edition = "2021"
publish = false

[dependencies]
anyhow = "*"
clap = { version = "*", features = ["derive"] }
dirs = "*"
flate2 = "*"
reqwest = { version = "*", default-features = false, features = ["blocking"] }
semver = "*"
serde = { version = "*", features = ["derive"] }
serde_json = "*"
sha2 = "*"
tar = "*"
toml = "*"
url = "*"
walkdir = "*"
xz2 = "*"
