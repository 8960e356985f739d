[package]
name = "dfs_audit"
version = "0.1.0"
edition = "2021"
publish = false

[dependencies]
chrono = "0.4"
clap = { version = "4", features = ["derive"] }
filetime = "0.2"
indicatif = "*"
jwalk = "*"
rayon = "1"

[dev-dependencies]
csv = "1"
