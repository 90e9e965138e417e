[package]
name = "obsidian_parser"
version = "0.1.0"
edition = "2021"
publish = false

[dependencies]
petgraph = "*"
serde_yml = "*"
serde = { version = "1", features = ["derive"] }
digest = "0.10"
rayon = "1"
crossbeam-channel = "0.5"
walkdir = "2"
thiserror = "*"
unic-emoji-char = "0.9"

[dev-dependencies]
sha2 = "0.10"
