[package]
name = "pijersi-rs"
version = "0.1.0"
edition = "2021"
publish = false

[dependencies]
bincode = "1"
clap = { version = "4", features = ["derive"] }
current_platform = "*"
miniz_oxide = "*"
rayon = "1"
regex = "1"
serde = { version = "1", features = ["derive"] }
serde_bytes = "*"
thiserror = "*"
