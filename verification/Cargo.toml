[package]
name = "qrbackup"
version = "0.1.0"
edition = "2021"
publish = false

[dependencies]
anyhow = "1"
chrono = "0.4"
clap = { version = "4", features = ["derive"] }
fast_qr = "0.12"
image = { version = "0.25", default-features = false, features = ["png"] }
rusttype = "0.9"
sha2 = "0.10"
zip = { version = "2", default-features = false }
