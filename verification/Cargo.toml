[package]
name = "lucide-svg-rs"
version = "0.1.0"
edition = "2021"
publish = false

[dependencies]
anyhow = "1"
clap = { version = "4", features = ["derive"] }
console = "0.15"
dialoguer = "0.11"
flate2 = "1"
serde_json = "1"
tar = "0.4"
