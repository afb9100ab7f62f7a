[package]
name = "open_dialog"
version = "0.1.0"
edition = "2021"
publish = false

[dependencies]
uuid = { version = "=1.27.0", features = ["v4", "serde"] }
chrono = { version = "=0.4.45", features = ["serde"] }
serde = { version = "=1.0.229", features = ["derive"] }
serde_json = "=1.0.151"
anyhow = "=1.0.104"
directories = "=6.0.0"
email_address = "=0.2.9"
whoami = "=2.1.3"
git2 = "=0.21.0"
