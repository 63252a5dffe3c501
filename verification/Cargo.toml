[package]
name = "modland_hash"
version = "0.1.0"
edition = "2021"
publish = false

[dependencies]
anyhow = "1"
clap = { version = "4", features = ["derive"] }
indicatif = "0.17"
log = "0.4"
rayon = "1"
regex = "1"
rusqlite = { version = "*", features = ["bundled"] }
sevenz-rust = "*"
sha2 = "0.10"
simple_logger = "*"
ureq = "2"
walkdir = "2"
