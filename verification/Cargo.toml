[package]
name = "mflash_core"
version = "0.1.0"
edition = "2021"
publish = false

[dependencies]
prost = "*"
bytes = "*"
zip = { version = "*", default-features = false, features = ["deflate", "zstd"] }
walkdir = "*"
dirs = "*"
rusqlite = { version = "*", features = ["bundled"] }
serde = { version = "*", features = ["derive"] }
serde_json = "*"
serde_yaml = "*"
toml = "*"
image = { version = "*", default-features = false, features = ["png", "jpeg", "webp"] }
rayon = "*"
csv = "*"
clap = { version = "*", features = ["derive"] }
uuid = { version = "*", features = ["v4"] }
