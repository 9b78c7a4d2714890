[package]
name = "sync_dotfiles_rs"
version = "0.1.0"
edition = "2021"
publish = false

[dependencies]
blake3 = "*"
serde = { version = "*", features = ["derive"] }
ron = "*"
clap = { version = "*", features = ["derive"] }
home = "*"
libc = "*"
anyhow = "*"
walkdir = "*"
rayon = "*"
