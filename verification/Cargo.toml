[package]
name = "zscan"
version = "0.1.0"
edition = "2021"
publish = false

[dependencies]
aho-corasick = "*"
anyhow = "*"
clap = { version = "*", features = ["derive"] }
glob = "*"
rayon = "*"
serde = { version = "*", features = ["derive"] }
serde_json = "*"
zstd = "*"
