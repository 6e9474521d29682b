[package]
name = "koharu"
version = "0.1.0"
edition = "2021"
publish = false

[dependencies]
alphanumeric-sort = "=1.5.8"
anyhow = "1"
async-trait = "0.1"
base64 = "=0.22.1"
clap = { version = "4", features = ["derive"] }
futures = "0.3"
image = "=0.25.10"
parking_lot = "0.12"
rayon = "1"
serde = { version = "1", features = ["derive"] }
tempfile = "3"
tokio = { version = "1", features = ["full"] }
tracing = "0.1"
tracing-subscriber = { version = "0.3", features = ["env-filter"] }
walkdir = "2"
webp = "=0.3.1"
zip = "=8.6.0"
