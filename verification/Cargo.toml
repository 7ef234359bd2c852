[package]
name = "mjai_reviewer"
version = "0.1.0"
edition = "2021"
publish = false

[dependencies]
anyhow = "1"
clap = { version = "4", features = ["derive"] }
serde_json = "1"
ureq = "3"
url = "2"
opener = "0.7"
dunce = "1"
