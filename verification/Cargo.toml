[package]
name = "sham"
version = "0.1.0"
edition = "2021"
publish = false

[dependencies]
anyhow = "=1.0.104"
clap = { version = "=4.6.7", features = ["derive"] }
dirs = "=7.0.0"
noyalib = { version = "=0.0.58", features = ["compat-serde-yaml"] }
rusqlite = { version = "=0.41.1", features = ["bundled"] }
serde = { version = "=1.0.229", features = ["derive"] }
sha2 = "=0.11.1"
ulid = "=3.0.0"
