[package]
name = "ferritin_common"
version = "0.1.0"
edition = "2021"
publish = false

[dependencies]
anyhow = "1"
clap = { version = "4", features = ["derive"] }
owo-colors = "4"
rayon = "1"
rustdoc-types = "*"
semver = "1"
serde_json = "1"
strsim = "0.11"
terminal_size = "0.4"
